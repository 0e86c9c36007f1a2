//! Emitted expressions are read as the expressions that they are emitted for.
use vstd::prelude::*;

use crate::seed::ast::{
    BinaryOp, BlockItemView, BlockView, ExprView, MatchArmView, Pattern, ProgramView,
};
use crate::seed::emit::name_text;
use crate::seed::emitted::lemma_number_word;
use crate::seed::pieces::{
    all_emittable, arm_emittable, arm_pieces, arms_emittable, arms_pieces, args_pieces,
    block_emittable, block_pieces, emittable, expr_pieces, item_emittable, item_pieces,
    items_emittable, items_pieces, let_pieces, method_word, number_word, pattern_emittable,
    bool_word, pattern_pieces, plain_name,
};
use crate::seed::rust::{
    are_pair, is_sign, is_word, literal, rust_args, rust_arms, rust_expr, rust_items, rust_pattern,
    rust_primary, rust_suffix, starts_number, Piece, Rust, RustArm, RustItem,
};

verus! {

/// The pieces stand in the text from `at` on.
pub open spec fn stands(t: Seq<Piece>, at: int, s: Seq<Piece>) -> bool {
    &&& 0 <= at
    &&& at + s.len() <= t.len()
    &&& forall|k: int| at <= k < at + s.len() ==> #[trigger] t[k] == s[k - at]
}

pub proof fn lemma_split(t: Seq<Piece>, at: int, a: Seq<Piece>, b: Seq<Piece>)
    requires
        stands(t, at, a + b),
    ensures
        stands(t, at, a),
        stands(t, at + a.len(), b),
{
    assert forall|k: int| at <= k < at + a.len() implies #[trigger] t[k] == a[k - at] by {
        assert(t[k] == (a + b)[k - at]);
    }
    assert forall|k: int| at + a.len() <= k < at + a.len() + b.len() implies #[trigger] t[k]
        == b[k - at - a.len()] by {
        assert(t[k] == (a + b)[k - at]);
    }
}

pub proof fn lemma_one(t: Seq<Piece>, at: int, piece: Piece)
    requires
        stands(t, at, seq![piece]),
    ensures
        0 <= at < t.len(),
        t[at] == piece,
{
    assert(t[at] == seq![piece][0]);
}

pub proof fn lemma_two(t: Seq<Piece>, at: int, a: Piece, b: Piece)
    requires
        stands(t, at, seq![a, b]),
    ensures
        0 <= at,
        at + 1 < t.len(),
        t[at] == a,
        t[at + 1] == b,
{
    assert(t[at] == seq![a, b][0]);
    assert(t[at + 1] == seq![a, b][1]);
}

pub proof fn lemma_three(t: Seq<Piece>, at: int, a: Piece, b: Piece, c: Piece)
    requires
        stands(t, at, seq![a, b, c]),
    ensures
        0 <= at,
        at + 2 < t.len(),
        t[at] == a,
        t[at + 1] == b,
        t[at + 2] == c,
{
    assert(t[at] == seq![a, b, c][0]);
    assert(t[at + 1] == seq![a, b, c][1]);
    assert(t[at + 2] == seq![a, b, c][2]);
}

/// The Rust expression for an expression.
pub open spec fn lowered(e: ExprView) -> Rust
    decreases e, 0int,
{
    match e {
        ExprView::Int(value) => Rust::Int(value),
        ExprView::Bool(value) => Rust::Bool(value),
        ExprView::Unit => Rust::Unit,
        ExprView::Var(name) => Rust::Var(name),
        ExprView::Call { name, args } => Rust::Call {
            name: name_text(name),
            args: lowered_list(args),
        },
        ExprView::MethodCall { .. } => Rust::Unit,
        ExprView::Binary { op, left, right } => {
            let left = lowered(*left);
            let right = lowered(*right);
            match op {
                BinaryOp::Eq => Rust::Eq { left: Box::new(left), right: Box::new(right) },
                BinaryOp::Lt => Rust::Lt { left: Box::new(left), right: Box::new(right) },
                _ => Rust::Method {
                    receiver: Box::new(left),
                    name: method_word(op),
                    args: seq![right],
                },
            }
        },
        ExprView::Match { scrutinee, arms } => Rust::Match {
            scrutinee: Box::new(lowered(*scrutinee)),
            arms: lowered_arms(arms),
        },
        ExprView::Block(block) => lowered_block(block),
    }
}

pub open spec fn lowered_list(list: Seq<ExprView>) -> Seq<Rust>
    decreases list, 0int,
{
    Seq::new(
        list.len(),
        |i: int|
            if 0 <= i < list.len() {
                lowered(list[i])
            } else {
                arbitrary()
            },
    )
}

pub open spec fn lowered_arm(arm: MatchArmView) -> RustArm
    decreases arm, 0int,
{
    RustArm { pattern: arm.pattern, expr: lowered(arm.expr) }
}

pub open spec fn lowered_arms(arms: Seq<MatchArmView>) -> Seq<RustArm>
    decreases arms, 0int,
{
    Seq::new(
        arms.len(),
        |i: int|
            if 0 <= i < arms.len() {
                lowered_arm(arms[i])
            } else {
                arbitrary()
            },
    )
}

pub open spec fn lowered_block(block: BlockView) -> Rust
    decreases block, 0int,
{
    Rust::Block(lowered_items(block.items))
}

pub open spec fn lowered_item(item: BlockItemView, is_last: bool) -> RustItem
    decreases item, 0int,
{
    match item {
        BlockItemView::Binding { name, expr } => RustItem::Let { name, expr: lowered(expr) },
        BlockItemView::Expr(expr) => if is_last {
            RustItem::Tail(lowered(expr))
        } else {
            RustItem::Let { name: "_"@, expr: lowered(expr) }
        },
    }
}

/// The items; after a binding at the end, the value is that of `Unit`.
pub open spec fn lowered_items(items: Seq<BlockItemView>) -> Seq<RustItem>
    decreases items, 0int,
{
    Seq::new(
        if items.len() > 0 && items.last() is Binding {
            items.len() + 1
        } else {
            items.len()
        },
        |i: int|
            if 0 <= i < items.len() {
                lowered_item(items[i], i + 1 == items.len())
            } else {
                RustItem::Tail(Rust::Unit)
            },
    )
}

/// The steps of the reader, one by one.
proof fn step_expr(t: Seq<Piece>, i: int, e: Rust, j: int)
    requires
        rust_primary(t, i) == Some((e, j)),
        i < j <= t.len(),
    ensures
        rust_expr(t, i) == rust_suffix(t, j, e),
{
    reveal(rust_expr);
    reveal(rust_primary);
    reveal(rust_suffix);
    reveal(rust_args);
    reveal(rust_expr);
}

pub proof fn step_stop(t: Seq<Piece>, i: int, e: Rust)
    requires
        !is_sign(t, i, '.'),
    ensures
        rust_suffix(t, i, e) == Some((e, i)),
{
    reveal(rust_suffix);
    reveal(rust_args);
    reveal(rust_expr);
}

proof fn step_method(t: Seq<Piece>, i: int, e: Rust, name: Seq<char>, args: Seq<Rust>, j: int)
    requires
        is_sign(t, i, '.'),
        is_word(t, i + 1, name),
        is_sign(t, i + 2, '('),
        rust_args(t, i + 3, Seq::empty()) == Some((args, j)),
        i < j <= t.len(),
    ensures
        rust_suffix(t, i, e) == rust_suffix(
            t,
            j,
            Rust::Method { receiver: Box::new(e), name, args },
        ),
{
    reveal(rust_suffix);
    reveal(rust_args);
    reveal(rust_expr);
}

proof fn step_no_args(t: Seq<Piece>, i: int, list: Seq<Rust>)
    requires
        list.len() == 0,
        is_sign(t, i, ')'),
    ensures
        rust_args(t, i, list) == Some((list, i + 1)),
{
    reveal(rust_args);
    reveal(rust_expr);
}

proof fn step_last_arg(t: Seq<Piece>, i: int, list: Seq<Rust>, e: Rust, j: int)
    requires
        !is_sign(t, i, ')'),
        rust_expr(t, i) == Some((e, j)),
        is_sign(t, j, ')'),
    ensures
        rust_args(t, i, list) == Some((list.push(e), j + 1)),
{
    reveal(rust_args);
    reveal(rust_expr);
}

proof fn step_arg(t: Seq<Piece>, i: int, list: Seq<Rust>, e: Rust, j: int)
    requires
        !is_sign(t, i, ')'),
        rust_expr(t, i) == Some((e, j)),
        i <= j,
        is_sign(t, j, ','),
    ensures
        rust_args(t, i, list) == rust_args(t, j + 1, list.push(e)),
{
    reveal(rust_args);
    reveal(rust_expr);
}

proof fn step_word(t: Seq<Piece>, i: int, word: Seq<char>)
    requires
        is_word(t, i, word),
        word != "match"@,
    ensures
        word == "true"@ ==> rust_primary(t, i) == Some((Rust::Bool(true), i + 1)),
        word == "false"@ && word != "true"@ ==> rust_primary(t, i) == Some(
            (Rust::Bool(false), i + 1),
        ),
        word != "true"@ && word != "false"@ && starts_number(word) ==> (literal(word) matches Some(
            value,
        ) ==> rust_primary(t, i) == Some((Rust::Int(value), i + 1))),
        word != "true"@ && word != "false"@ && !starts_number(word) && !is_sign(t, i + 1, '(')
            ==> rust_primary(t, i) == Some((Rust::Var(word), i + 1)),
{
    reveal(rust_primary);
    reveal(rust_expr);
    reveal(rust_arms);
    reveal(rust_items);
    reveal(rust_args);
}

proof fn step_call(t: Seq<Piece>, i: int, word: Seq<char>, args: Seq<Rust>, j: int)
    requires
        is_word(t, i, word),
        plain_name(word),
        is_sign(t, i + 1, '('),
        rust_args(t, i + 2, Seq::empty()) == Some((args, j)),
    ensures
        rust_primary(t, i) == Some((Rust::Call { name: word, args }, j)),
{
    reveal(rust_primary);
    reveal(rust_expr);
    reveal(rust_arms);
    reveal(rust_items);
    reveal(rust_args);
}

proof fn step_unit(t: Seq<Piece>, i: int)
    requires
        is_sign(t, i, '('),
        is_sign(t, i + 1, ')'),
    ensures
        rust_primary(t, i) == Some((Rust::Unit, i + 2)),
{
    reveal(rust_primary);
    reveal(rust_expr);
    reveal(rust_arms);
    reveal(rust_items);
    reveal(rust_args);
}

proof fn step_compare(t: Seq<Piece>, i: int, left: Rust, j: int, right: Rust, k: int)
    requires
        is_sign(t, i, '('),
        !is_sign(t, i + 1, ')'),
        rust_expr(t, i + 1) == Some((left, j)),
        i < j,
        are_pair(t, j, '=', '=') || is_sign(t, j, '<'),
        rust_expr(t, j + 1) == Some((right, k)),
        is_sign(t, k, ')'),
    ensures
        is_sign(t, j, '<') ==> rust_primary(t, i) == Some(
            (Rust::Lt { left: Box::new(left), right: Box::new(right) }, k + 1),
        ),
        are_pair(t, j, '=', '=') ==> rust_primary(t, i) == Some(
            (Rust::Eq { left: Box::new(left), right: Box::new(right) }, k + 1),
        ),
{
    reveal(rust_primary);
    reveal(rust_expr);
    reveal(rust_arms);
    reveal(rust_items);
    reveal(rust_args);
}

proof fn step_match(t: Seq<Piece>, i: int, scrutinee: Rust, j: int, arms: Seq<RustArm>, k: int)
    requires
        is_word(t, i, "match"@),
        rust_expr(t, i + 1) == Some((scrutinee, j)),
        i < j,
        is_sign(t, j, '{'),
        rust_arms(t, j + 1, Seq::empty()) == Some((arms, k)),
    ensures
        rust_primary(t, i) == Some((Rust::Match { scrutinee: Box::new(scrutinee), arms }, k)),
{
    reveal(rust_primary);
    reveal(rust_expr);
    reveal(rust_arms);
    reveal(rust_items);
    reveal(rust_args);
}

proof fn step_block(t: Seq<Piece>, i: int, items: Seq<RustItem>, j: int)
    requires
        is_sign(t, i, '{'),
        rust_items(t, i + 1, Seq::empty()) == Some((items, j)),
    ensures
        rust_primary(t, i) == Some((Rust::Block(items), j)),
{
    reveal(rust_primary);
    reveal(rust_expr);
    reveal(rust_arms);
    reveal(rust_items);
    reveal(rust_args);
}

proof fn step_no_arm(t: Seq<Piece>, i: int, list: Seq<RustArm>)
    requires
        is_sign(t, i, '}'),
    ensures
        rust_arms(t, i, list) == Some((list, i + 1)),
{
    reveal(rust_arms);
    reveal(rust_expr);
}

proof fn step_arm(t: Seq<Piece>, i: int, list: Seq<RustArm>, arm: RustArm, j: int, k: int)
    requires
        !is_sign(t, i, '}'),
        rust_pattern(t, i) == Some((arm.pattern, j)),
        i < j,
        are_pair(t, j, '=', '>'),
        rust_expr(t, j + 1) == Some((arm.expr, k)),
        j < k,
        is_sign(t, k, ','),
    ensures
        rust_arms(t, i, list) == rust_arms(t, k + 1, list.push(arm)),
{
    reveal(rust_arms);
    reveal(rust_expr);
}

proof fn step_no_item(t: Seq<Piece>, i: int, list: Seq<RustItem>)
    requires
        is_sign(t, i, '}'),
    ensures
        rust_items(t, i, list) == Some((list, i + 1)),
{
    reveal(rust_items);
    reveal(rust_expr);
}

proof fn step_let(t: Seq<Piece>, i: int, list: Seq<RustItem>, name: Seq<char>, e: Rust, j: int)
    requires
        is_word(t, i, "let"@),
        is_word(t, i + 1, name),
        is_sign(t, i + 2, '='),
        rust_expr(t, i + 3) == Some((e, j)),
        i < j,
        is_sign(t, j, ';'),
    ensures
        rust_items(t, i, list) == rust_items(t, j + 1, list.push(RustItem::Let { name, expr: e })),
{
    reveal(rust_items);
    reveal(rust_expr);
}

pub proof fn step_tail(t: Seq<Piece>, i: int, list: Seq<RustItem>, e: Rust, j: int)
    requires
        !is_sign(t, i, '}'),
        !is_word(t, i, "let"@),
        rust_expr(t, i) == Some((e, j)),
        is_sign(t, j, '}'),
    ensures
        rust_items(t, i, list) == Some((list.push(RustItem::Tail(e)), j + 1)),
{
    reveal(rust_items);
    reveal(rust_expr);
}

/// How an expression can start.
pub open spec fn starts(piece: Piece) -> bool {
    match piece {
        Piece::Word(word) => word != "let"@,
        Piece::Sign(c) => c == '(' || c == '{',
        Piece::Pair(_, _) => false,
    }
}

pub proof fn lemma_starts(p: ProgramView, e: ExprView)
    requires
        emittable(p, e),
    ensures
        expr_pieces(e).len() > 0,
        starts(expr_pieces(e)[0]),
    decreases e,
{
    reveal_strlit("let");
    reveal_strlit("true");
    reveal_strlit("false");
    reveal_strlit("match");
    assert("let"@.len() == 3 && "true"@.len() == 4 && "false"@.len() == 5 && "match"@.len() == 5);
    match e {
        ExprView::Int(value) => {
            lemma_number_word(value);
            assert("let"@[0] == 'l');
        },
        ExprView::Binary { op, left, right } => lemma_starts(p, *left),
        ExprView::Block(block) => assert(expr_pieces(e) == block_pieces(block)),
        _ => {},
    }
}

/// What the words of the reader are not.
pub proof fn lemma_words()
    ensures
        "true"@ != "match"@,
        "false"@ != "match"@,
        "false"@ != "true"@,
        "true"@ != "_"@,
        "false"@ != "_"@,
{
    reveal_strlit("true");
    reveal_strlit("false");
    reveal_strlit("match");
    reveal_strlit("_");
    assert("true"@.len() == 4 && "false"@.len() == 5 && "match"@.len() == 5 && "_"@.len() == 1);
    assert("false"@[0] == 'f' && "match"@[0] == 'm');
}

/// A number is no other word.
pub proof fn lemma_number_words(word: Seq<char>)
    requires
        starts_number(word),
    ensures
        word != "match"@,
        word != "true"@,
        word != "false"@,
        word != "_"@,
{
    reveal_strlit("true");
    reveal_strlit("false");
    reveal_strlit("match");
    reveal_strlit("_");
    assert("true"@[0] == 't' && "false"@[0] == 'f' && "match"@[0] == 'm' && "_"@[0] == '_');
}

pub proof fn lemma_pattern_read(pattern: Pattern, t: Seq<Piece>, at: int)
    requires
        pattern_emittable(pattern),
        stands(t, at, pattern_pieces(pattern)),
    ensures
        pattern_pieces(pattern).len() > 0,
        rust_pattern(t, at) == Some((pattern, at + pattern_pieces(pattern).len())),
        !is_sign(t, at, '}'),
{
    lemma_words();
    match pattern {
        Pattern::Int(value) => {
            lemma_number_word(value);
            lemma_number_words(number_word(value));
            lemma_one(t, at, pattern_pieces(pattern)[0]);
        },
        Pattern::Bool(value) => lemma_one(t, at, pattern_pieces(pattern)[0]),
        Pattern::Unit => lemma_two(t, at, Piece::Sign('('), Piece::Sign(')')),
        Pattern::Wildcard => lemma_one(t, at, pattern_pieces(pattern)[0]),
    }
}

/// An expression is read, and then the method calls on it.
pub proof fn lemma_read(p: ProgramView, e: ExprView, t: Seq<Piece>, at: int)
    requires
        emittable(p, e),
        stands(t, at, expr_pieces(e)),
        !is_sign(t, at + expr_pieces(e).len(), '('),
    ensures
        expr_pieces(e).len() > 0,
        rust_expr(t, at) == rust_suffix(t, at + expr_pieces(e).len(), lowered(e)),
    decreases e, 1int,
{
    lemma_starts(p, e);
    match e {
        ExprView::Binary { op, left, right } if op != BinaryOp::Eq && op != BinaryOp::Lt => {
            let l = expr_pieces(*left);
            let r = expr_pieces(*right);
            let call = seq![Piece::Sign('.'), Piece::Word(method_word(op)), Piece::Sign('(')];
            let close = seq![Piece::Sign(')')];
            let j = at + l.len();
            assert(expr_pieces(e) == l + (call + (r + close)));
            lemma_split(t, at, l, call + (r + close));
            lemma_split(t, j, call, r + close);
            lemma_three(t, j, call[0], call[1], call[2]);
            lemma_split(t, j + 3, r, close);
            lemma_one(t, j + 3 + r.len(), close[0]);
            lemma_read(p, *left, t, at);
            lemma_read(p, *right, t, j + 3);
            lemma_starts(p, *right);
            let end = j + 3 + r.len();
            assert(t[j + 3] == r[0]);
            step_stop(t, end, lowered(*right));
            let none = Seq::<Rust>::empty();
            let args = seq![lowered(*right)];
            assert(none.push(lowered(*right)) =~= args);
            step_last_arg(t, j + 3, none, lowered(*right), end);
            step_method(t, j, lowered(*left), method_word(op), args, end + 1);
            assert(lowered(e) == Rust::Method {
                receiver: Box::new(lowered(*left)),
                name: method_word(op),
                args,
            });
        },
        _ => {
            lemma_primary_read(p, e, t, at);
            step_expr(t, at, lowered(e), at + expr_pieces(e).len());
        },
    }
}

/// An expression that starts with no other one is read at once.
pub proof fn lemma_primary_read(p: ProgramView, e: ExprView, t: Seq<Piece>, at: int)
    requires
        emittable(p, e),
        stands(t, at, expr_pieces(e)),
        !is_sign(t, at + expr_pieces(e).len(), '('),
        e matches ExprView::Binary { op, .. } ==> op == BinaryOp::Eq || op == BinaryOp::Lt,
    ensures
        rust_primary(t, at) == Some((lowered(e), at + expr_pieces(e).len())),
    decreases e, 0int,
{
    lemma_starts(p, e);
    lemma_words();
    match e {
        ExprView::Int(value) => {
            lemma_number_word(value);
            lemma_number_words(number_word(value));
            lemma_one(t, at, expr_pieces(e)[0]);
            step_word(t, at, number_word(value));
        },
        ExprView::Bool(value) => {
            lemma_one(t, at, expr_pieces(e)[0]);
            step_word(t, at, bool_word(value));
        },
        ExprView::Unit => {
            lemma_two(t, at, Piece::Sign('('), Piece::Sign(')'));
            step_unit(t, at);
        },
        ExprView::Var(name) => {
            lemma_one(t, at, Piece::Word(name));
            step_word(t, at, name);
        },
        ExprView::Call { name, args } => {
            let head = seq![Piece::Word(name_text(name)), Piece::Sign('(')];
            let rest = args_pieces(args, 0) + seq![Piece::Sign(')')];
            lemma_split(t, at, head, rest);
            lemma_two(t, at, head[0], head[1]);
            lemma_args_read(p, args, 0, t, at + 2);
            assert(lowered_list(args).take(0) =~= Seq::empty());
            step_call(t, at, name_text(name), lowered_list(args), at + expr_pieces(e).len());
        },
        ExprView::MethodCall { .. } => {},
        ExprView::Binary { op, left, right } => {
            let l = expr_pieces(*left);
            let r = expr_pieces(*right);
            let open = seq![Piece::Sign('(')];
            let mid = if op == BinaryOp::Eq {
                seq![Piece::Pair('=', '=')]
            } else {
                seq![Piece::Sign('<')]
            };
            let close = seq![Piece::Sign(')')];
            let j = at + 1 + l.len();
            let k = j + 1 + r.len();
            assert(expr_pieces(e) == open + (l + (mid + (r + close))));
            lemma_split(t, at, open, l + (mid + (r + close)));
            lemma_one(t, at, open[0]);
            lemma_split(t, at + 1, l, mid + (r + close));
            lemma_split(t, j, mid, r + close);
            lemma_one(t, j, mid[0]);
            lemma_split(t, j + 1, r, close);
            lemma_one(t, k, close[0]);
            lemma_starts(p, *left);
            assert(t[at + 1] == l[0]);
            lemma_read(p, *left, t, at + 1);
            lemma_read(p, *right, t, j + 1);
            step_stop(t, j, lowered(*left));
            step_stop(t, k, lowered(*right));
            step_compare(t, at, lowered(*left), j, lowered(*right), k);
        },
        ExprView::Match { scrutinee, arms } => {
            let head = seq![Piece::Word("match"@)];
            let s = expr_pieces(*scrutinee);
            let open = seq![Piece::Sign('{')];
            let rest = arms_pieces(arms, 0) + seq![Piece::Sign('}')];
            let j = at + 1 + s.len();
            assert(expr_pieces(e) == head + (s + (open + rest)));
            lemma_split(t, at, head, s + (open + rest));
            lemma_one(t, at, head[0]);
            lemma_split(t, at + 1, s, open + rest);
            lemma_split(t, j, open, rest);
            lemma_one(t, j, open[0]);
            lemma_read(p, *scrutinee, t, at + 1);
            step_stop(t, j, lowered(*scrutinee));
            lemma_arms_read(p, arms, 0, t, j + 1);
            assert(lowered_arms(arms).take(0) =~= Seq::empty());
            step_match(
                t,
                at,
                lowered(*scrutinee),
                j,
                lowered_arms(arms),
                at + expr_pieces(e).len(),
            );
        },
        ExprView::Block(block) => {
            assert(expr_pieces(e) == block_pieces(block));
            assert(lowered(e) == lowered_block(block));
            lemma_block_read(p, block, t, at);
        },
    }
}

/// The arguments are read in their order.
pub proof fn lemma_args_read(p: ProgramView, args: Seq<ExprView>, i: int, t: Seq<Piece>, at: int)
    requires
        0 <= i < args.len() || (i == 0 && args.len() == 0),
        all_emittable(p, args, i),
        stands(t, at, args_pieces(args, i) + seq![Piece::Sign(')')]),
    ensures
        rust_args(t, at, lowered_list(args).take(i)) == Some(
            (lowered_list(args), at + args_pieces(args, i).len() + 1),
        ),
    decreases args, args.len() - i,
{
    let all = lowered_list(args);
    let close = seq![Piece::Sign(')')];
    if args.len() == 0 {
        lemma_split(t, at, args_pieces(args, i), close);
        lemma_one(t, at, close[0]);
        assert(all.take(0) =~= all);
        step_no_args(t, at, all);
    } else {
        let first = expr_pieces(args[i]);
        let j = at + first.len();
        lemma_starts(p, args[i]);
        assert(all.take(i).push(lowered(args[i])) =~= all.take(i + 1));
        if i + 1 < args.len() {
            let comma = seq![Piece::Sign(',')];
            let rest = args_pieces(args, i + 1) + close;
            assert(args_pieces(args, i) + close =~= first + (comma + rest));
            lemma_split(t, at, first, comma + rest);
            lemma_split(t, j, comma, rest);
            lemma_one(t, j, comma[0]);
            lemma_read(p, args[i], t, at);
            assert(t[at] == first[0]);
            step_stop(t, j, lowered(args[i]));
            step_arg(t, at, all.take(i), lowered(args[i]), j);
            lemma_args_read(p, args, i + 1, t, j + 1);
        } else {
            assert(args_pieces(args, i) + close =~= first + close);
            lemma_split(t, at, first, close);
            lemma_one(t, j, close[0]);
            lemma_read(p, args[i], t, at);
            assert(t[at] == first[0]);
            step_stop(t, j, lowered(args[i]));
            step_last_arg(t, at, all.take(i), lowered(args[i]), j);
            assert(all.take(i + 1) =~= all);
        }
    }
}

/// The arms are read in their order.
pub proof fn lemma_arms_read(
    p: ProgramView,
    arms: Seq<MatchArmView>,
    i: int,
    t: Seq<Piece>,
    at: int,
)
    requires
        0 <= i <= arms.len(),
        arms_emittable(p, arms, i),
        stands(t, at, arms_pieces(arms, i) + seq![Piece::Sign('}')]),
    ensures
        rust_arms(t, at, lowered_arms(arms).take(i)) == Some(
            (lowered_arms(arms), at + arms_pieces(arms, i).len() + 1),
        ),
    decreases arms, arms.len() - i,
{
    let all = lowered_arms(arms);
    let close = seq![Piece::Sign('}')];
    if i < arms.len() {
        let a = pattern_pieces(arms[i].pattern);
        let b = seq![Piece::Pair('=', '>')];
        let c = expr_pieces(arms[i].expr);
        let d = seq![Piece::Sign(',')];
        let rest = arms_pieces(arms, i + 1) + close;
        let j = at + a.len();
        let k = j + 1 + c.len();
        assert(arm_emittable(p, arms[i]));
        assert(arm_pieces(arms[i]) == a + (b + (c + d)));
        assert(arms_pieces(arms, i) == arm_pieces(arms[i]) + arms_pieces(arms, i + 1));
        assert(arms_pieces(arms, i) + close =~= a + (b + (c + (d + rest))));
        lemma_split(t, at, a, b + (c + (d + rest)));
        lemma_split(t, j, b, c + (d + rest));
        lemma_one(t, j, b[0]);
        lemma_split(t, j + 1, c, d + rest);
        lemma_split(t, k, d, rest);
        lemma_one(t, k, d[0]);
        lemma_pattern_read(arms[i].pattern, t, at);
        lemma_arm_expr_read(p, arms[i], t, j + 1);
        assert(all.take(i).push(lowered_arm(arms[i])) =~= all.take(i + 1));
        step_arm(t, at, all.take(i), lowered_arm(arms[i]), j, k);
        lemma_arms_read(p, arms, i + 1, t, k + 1);
    } else {
        lemma_split(t, at, arms_pieces(arms, i), close);
        lemma_one(t, at, close[0]);
        assert(all.take(i) =~= all);
        step_no_arm(t, at, all);
    }
}

pub proof fn lemma_arm_expr_read(p: ProgramView, arm: MatchArmView, t: Seq<Piece>, at: int)
    requires
        arm_emittable(p, arm),
        stands(t, at, expr_pieces(arm.expr)),
        is_sign(t, at + expr_pieces(arm.expr).len(), ','),
    ensures
        expr_pieces(arm.expr).len() > 0,
        rust_expr(t, at) == Some((lowered(arm.expr), at + expr_pieces(arm.expr).len())),
    decreases arm, 0int,
{
    lemma_read(p, arm.expr, t, at);
    step_stop(t, at + expr_pieces(arm.expr).len(), lowered(arm.expr));
}

pub proof fn lemma_block_read(p: ProgramView, block: BlockView, t: Seq<Piece>, at: int)
    requires
        block_emittable(p, block),
        stands(t, at, block_pieces(block)),
    ensures
        rust_primary(t, at) == Some((lowered_block(block), at + block_pieces(block).len())),
    decreases block, 0int,
{
    let open = seq![Piece::Sign('{')];
    let rest = items_pieces(block.items, 0) + seq![Piece::Sign('}')];
    lemma_split(t, at, open, rest);
    lemma_one(t, at, open[0]);
    lemma_items_read(p, block.items, 0, t, at + 1);
    assert(lowered_items(block.items).take(0) =~= Seq::empty());
    step_block(t, at, lowered_items(block.items), at + block_pieces(block).len());
}

pub proof fn lemma_let_read(name: Seq<char>, value: Seq<Piece>, t: Seq<Piece>, at: int)
    requires
        stands(t, at, let_pieces(name, value)),
    ensures
        is_word(t, at, "let"@),
        !is_sign(t, at, '}'),
        at + 1 < t.len(),
        t[at + 1] == Piece::Word(name),
        is_sign(t, at + 2, '='),
        stands(t, at + 3, value),
        is_sign(t, at + 3 + value.len(), ';'),
        let_pieces(name, value).len() == value.len() + 4,
{
    let head = seq![Piece::Word("let"@), Piece::Word(name), Piece::Sign('=')];
    let end = seq![Piece::Sign(';')];
    lemma_split(t, at, head, value + end);
    lemma_three(t, at, head[0], head[1], head[2]);
    lemma_split(t, at + 3, value, end);
    lemma_one(t, at + 3 + value.len(), end[0]);
}

/// The items are read in their order.
pub proof fn lemma_items_read(
    p: ProgramView,
    items: Seq<BlockItemView>,
    i: int,
    t: Seq<Piece>,
    at: int,
)
    requires
        0 <= i < items.len() || (i == 0 && items.len() == 0),
        items_emittable(p, items, i),
        stands(t, at, items_pieces(items, i) + seq![Piece::Sign('}')]),
    ensures
        rust_items(t, at, lowered_items(items).take(i)) == Some(
            (lowered_items(items), at + items_pieces(items, i).len() + 1),
        ),
    decreases items, items.len() - i,
{
    let all = lowered_items(items);
    let close = seq![Piece::Sign('}')];
    if items.len() == 0 {
        lemma_split(t, at, items_pieces(items, i), close);
        lemma_one(t, at, close[0]);
        assert(all.take(0) =~= all);
        step_no_item(t, at, all);
    } else {
        let is_last = i + 1 == items.len();
        let first = item_pieces(items[i], is_last);
        let rest = items_pieces(items, i + 1) + close;
        assert(items_pieces(items, i) + close =~= first + rest);
        lemma_split(t, at, first, rest);
        assert(all.take(i).push(lowered_item(items[i], is_last)) =~= all.take(i + 1));
        if is_last {
            assert(items_pieces(items, i + 1) =~= Seq::empty());
            assert(rest =~= close);
            lemma_one(t, at + first.len(), close[0]);
        }
        lemma_item_read(p, items[i], is_last, all.take(i), t, at);
        if is_last {
            match items[i] {
                BlockItemView::Binding { name, expr } => {
                    let j = at + first.len() - 2;
                    step_stop(t, j + 2, Rust::Unit);
                    step_unit(t, j);
                    step_expr(t, j, Rust::Unit, j + 2);
                    step_tail(t, j, all.take(i + 1), Rust::Unit, j + 2);
                    assert(all.take(i + 1).push(RustItem::Tail(Rust::Unit)) =~= all);
                },
                BlockItemView::Expr(expr) => {
                    assert(all.take(i + 1) =~= all);
                },
            }
        } else {
            lemma_items_read(p, items, i + 1, t, at + first.len());
        }
    }
}

/// One item is read.
pub proof fn lemma_item_read(
    p: ProgramView,
    item: BlockItemView,
    is_last: bool,
    list: Seq<RustItem>,
    t: Seq<Piece>,
    at: int,
)
    requires
        item_emittable(p, item),
        stands(t, at, item_pieces(item, is_last)),
        is_last ==> is_sign(t, at + item_pieces(item, is_last).len(), '}'),
    ensures
        ({
            let end = at + item_pieces(item, is_last).len();
            let more = list.push(lowered_item(item, is_last));
            if !is_last {
                rust_items(t, at, list) == rust_items(t, end, more)
            } else if item is Binding {
                &&& rust_items(t, at, list) == rust_items(t, end - 2, more)
                &&& is_sign(t, end - 2, '(')
                &&& is_sign(t, end - 1, ')')
            } else {
                rust_items(t, at, list) == Some((more, end + 1))
            }
        }),
    decreases item, 0int,
{
    match item {
        BlockItemView::Binding { name, expr } => {
            let value = expr_pieces(expr);
            let line = let_pieces(name, value);
            let unit = seq![Piece::Sign('('), Piece::Sign(')')];
            let more = if is_last {
                unit
            } else {
                Seq::empty()
            };
            assert(item_pieces(item, is_last) == line + more);
            lemma_split(t, at, line, more);
            if is_last {
                lemma_two(t, at + line.len(), unit[0], unit[1]);
            }
            lemma_let_read(name, value, t, at);
            lemma_read(p, expr, t, at + 3);
            step_stop(t, at + 3 + value.len(), lowered(expr));
            step_let(t, at, list, name, lowered(expr), at + 3 + value.len());
        },
        BlockItemView::Expr(expr) => {
            let value = expr_pieces(expr);
            if is_last {
                lemma_starts(p, expr);
                assert(t[at] == value[0]);
                lemma_read(p, expr, t, at);
                step_stop(t, at + value.len(), lowered(expr));
                step_tail(t, at, list, lowered(expr), at + value.len());
            } else {
                lemma_let_read("_"@, value, t, at);
                lemma_read(p, expr, t, at + 3);
                step_stop(t, at + 3 + value.len(), lowered(expr));
                step_let(t, at, list, "_"@, lowered(expr), at + 3 + value.len());
            }
        },
    }
}

} // verus!
