//! What is written down reads back as what it was.
use vstd::prelude::*;

use crate::seed::ast::{
    BinaryOp, BlockItemView, BlockView, ExprView, FunctionView, MatchArmView, Pattern, PrimType,
    ProgramView,
};
use crate::seed::grammar::{
    additive, annotation, arguments, attributes, binary, block, block_item, block_items, bound_name,
    call_arguments, comparison, declaration, declarations, equality, expression, function,
    function_name, identifiers, kind_at, lemma_primary, match_arms, match_expression,
    more_arguments, more_equality, more_identifiers, more_postfix, more_product, more_sum, named,
    newlines, parenthesized, pattern, postfix, primary, product, program, sum, type_named, Parsed,
};
use crate::seed::lexer::{TokenKindView, TokenView};
use crate::seed::writing::{
    all_writable, annotation_tokens, args_tokens, arms_tokens, arms_writable, bare, block_tokens,
    block_writable, bool_kind, function_tokens, functions_tokens, item_tokens, item_writable,
    items_tokens, items_writable, kinds, level, more_args_tokens, more_params_tokens, name_tokens,
    op_kind, op_level, params_tokens, pattern_tokens, program_tokens, program_writable,
    type_name_of, writable, written,
};
use crate::text::ends_with_bang;

verus! {

/// The tokens from `at` on are of the kinds.
pub open spec fn stands(t: Seq<TokenView>, at: int, k: Seq<TokenKindView>) -> bool {
    &&& 0 <= at
    &&& at + k.len() <= t.len()
    &&& forall|i: int| at <= i < at + k.len() ==> (#[trigger] t[i]).kind == k[i - at]
}

pub proof fn lemma_split(t: Seq<TokenView>, at: int, a: Seq<TokenKindView>, b: Seq<TokenKindView>)
    requires
        stands(t, at, a + b),
    ensures
        stands(t, at, a),
        stands(t, at + a.len(), b),
{
    assert forall|i: int| at <= i < at + a.len() implies (#[trigger] t[i]).kind == a[i - at] by {
        assert((a + b)[i - at] == a[i - at]);
    }
    let middle = at + a.len();
    assert forall|i: int| middle <= i < middle + b.len() implies (#[trigger] t[i]).kind == b[i
        - middle] by {
        assert((a + b)[i - at] == b[i - middle]);
    }
}

/// A token of the kind, and the rest behind it.
pub proof fn lemma_head(t: Seq<TokenView>, at: int, kind: TokenKindView, rest: Seq<TokenKindView>)
    requires
        stands(t, at, seq![kind] + rest),
    ensures
        kind_at(t, at) == kind,
        stands(t, at + 1, rest),
{
    lemma_split(t, at, seq![kind], rest);
    assert(t[at].kind == seq![kind][0]);
}

/// A token of the kind.
pub proof fn lemma_one(t: Seq<TokenView>, at: int, kind: TokenKindView)
    requires
        stands(t, at, seq![kind]),
    ensures
        kind_at(t, at) == kind,
{
    assert(t[at].kind == seq![kind][0]);
}

/// Two tokens of the kinds.
pub proof fn lemma_two(t: Seq<TokenView>, at: int, kind: TokenKindView, other: TokenKindView)
    requires
        stands(t, at, seq![kind, other]),
    ensures
        kind_at(t, at) == kind,
        kind_at(t, at + 1) == other,
{
    assert(t[at].kind == seq![kind, other][0]);
    assert(t[at + 1].kind == seq![kind, other][1]);
}

/// A token of the kind cannot continue an expression that binds at least as tightly as `least`.
pub open spec fn stops(kind: TokenKindView, least: int) -> bool {
    &&& kind != TokenKindView::LParen
    &&& kind != TokenKindView::Bang
    &&& least <= 3 ==> kind != TokenKindView::Dot
    &&& least <= 2 ==> kind != TokenKindView::Star
    &&& least <= 1 ==> additive(kind) is None
    &&& least <= 0 ==> comparison(kind) is None
}

/// Reads an expression that binds at least as tightly as `least`.
pub open spec fn read_at(t: Seq<TokenView>, at: int, least: int) -> Parsed<ExprView> {
    if least <= 0 {
        equality(t, at)
    } else if least == 1 {
        sum(t, at)
    } else if least == 2 {
        product(t, at)
    } else {
        postfix(t, at)
    }
}

/// Reads on behind `left`.
pub open spec fn read_on(t: Seq<TokenView>, at: int, least: int, left: ExprView) -> Parsed<
    ExprView,
> {
    if least <= 0 {
        more_equality(t, at, left)
    } else if least == 1 {
        more_sum(t, at, left)
    } else if least == 2 {
        more_product(t, at, left)
    } else {
        more_postfix(t, at, left)
    }
}

pub proof fn lemma_stopped(t: Seq<TokenView>, at: int, least: int, left: ExprView)
    requires
        stops(kind_at(t, at), least),
        0 <= least <= 3,
    ensures
        read_on(t, at, least, left) == (at, Ok::<ExprView, Seq<char>>(left)),
{
    reveal(more_equality);
    reveal(more_sum);
    reveal(more_product);
    reveal(more_postfix);
}

/// What was read where more is needed is the start of what is read where less is.
pub proof fn lemma_lowered(t: Seq<TokenView>, at: int, end: int, least: int, e: ExprView)
    requires
        0 <= least < 3,
        at < end <= t.len(),
        read_at(t, at, least + 1) == (end, Ok::<ExprView, Seq<char>>(e)),
    ensures
        read_at(t, at, least) == read_on(t, end, least, e),
{
    reveal(equality);
    reveal(more_equality);
    reveal(sum);
    reveal(more_sum);
    reveal(product);
    reveal(more_product);
    reveal(postfix);
}

/// A primary expression is the start of what is read.
pub proof fn lemma_primary_read(t: Seq<TokenView>, at: int, end: int, least: int, e: ExprView)
    requires
        0 <= least <= 3,
        at < end <= t.len(),
        primary(t, at) == (end, Ok::<ExprView, Seq<char>>(e)),
        stops(kind_at(t, end), least + 1),
    ensures
        read_at(t, at, least) == read_on(t, end, least, e),
    decreases 3 - least,
{
    if least == 3 {
        reveal(primary);
        reveal(postfix);
        reveal(more_postfix);
    } else {
        lemma_primary_read(t, at, end, least + 1, e);
        lemma_stopped(t, end, least + 1, e);
        lemma_lowered(t, at, end, least, e);
    }
}

/// The kinds that an expression can start with.
pub open spec fn starts_expression(kind: TokenKindView) -> bool {
    match kind {
        TokenKindView::Int(_) | TokenKindView::True | TokenKindView::False => true,
        TokenKindView::Ident(_) | TokenKindView::Match => true,
        TokenKindView::LBrace | TokenKindView::LParen => true,
        _ => false,
    }
}

/// What is written starts as an expression, and not as a binding.
pub open spec fn starts_well(k: Seq<TokenKindView>) -> bool {
    &&& k.len() > 0
    &&& starts_expression(k[0])
    &&& k.len() > 1 && k[0] is Ident ==> k[1] != TokenKindView::Eq
}

proof fn lemma_written_start(e: ExprView, least: int)
    ensures
        starts_well(written(e, least)),
        starts_well(bare(e)),
    decreases e,
{
    match e {
        ExprView::MethodCall { receiver, .. } => {
            let front = written(*receiver, 3);
            lemma_written_start(*receiver, 3);
            assert(bare(e)[0] == front[0]);
            assert(bare(e)[1] == if front.len() > 1 {
                front[1]
            } else {
                TokenKindView::Dot
            });
        },
        ExprView::Binary { op, left, .. } => lemma_written_start(*left, op_level(op)),
        _ => {},
    }
}

/// An operator and its right operand are read on behind the left one.
pub proof fn lemma_operator(
    t: Seq<TokenView>,
    at: int,
    end: int,
    op: BinaryOp,
    left: ExprView,
    right: ExprView,
)
    requires
        kind_at(t, at) == op_kind(op),
        at < end <= t.len(),
        read_at(t, at + 1, op_level(op) + 1) == (end, Ok::<ExprView, Seq<char>>(right)),
    ensures
        read_on(t, at, op_level(op), left) == read_on(
            t,
            end,
            op_level(op),
            binary(op, left, right),
        ),
{
    reveal(more_equality);
    reveal(sum);
    reveal(more_sum);
    reveal(product);
    reveal(more_product);
    reveal(postfix);
}

/// An expression in parentheses.
pub proof fn lemma_in_parentheses(t: Seq<TokenView>, at: int, close: int, e: ExprView)
    requires
        kind_at(t, at) == TokenKindView::LParen,
        kind_at(t, at + 1) != TokenKindView::RParen,
        read_at(t, at + 1, 0) == (close, Ok::<ExprView, Seq<char>>(e)),
        kind_at(t, close) == TokenKindView::RParen,
    ensures
        primary(t, at) == (close + 1, Ok::<ExprView, Seq<char>>(e)),
{
    lemma_primary(t, at);
    reveal(parenthesized);
    reveal(expression);
    reveal(equality);
}

/// A match expression, by its parts.
pub proof fn lemma_match_parts(
    t: Seq<TokenView>,
    at: int,
    open: int,
    close: int,
    scrutinee: ExprView,
    arms: Seq<MatchArmView>,
)
    requires
        kind_at(t, at) == TokenKindView::Match,
        expression(t, at + 1) == (open, Ok::<ExprView, Seq<char>>(scrutinee)),
        at < open <= t.len(),
        kind_at(t, open) == TokenKindView::LBrace,
        match_arms(t, newlines(t, open + 1), Seq::empty()) == (close, Ok::<
            Seq<MatchArmView>,
            Seq<char>,
        >(arms)),
        kind_at(t, close) == TokenKindView::RBrace,
    ensures
        match_expression(t, at) == (close + 1, Ok::<ExprView, Seq<char>>(
            ExprView::Match { scrutinee: Box::new(scrutinee), arms },
        )),
{
    reveal(match_expression);
    reveal(expression);
    reveal(match_arms);
}

/// One arm and those behind it, by their parts.
pub proof fn lemma_arm_parts(
    t: Seq<TokenView>,
    at: int,
    arrow: int,
    end: int,
    arm: MatchArmView,
    before: Seq<MatchArmView>,
)
    requires
        kind_at(t, at) != TokenKindView::RBrace,
        kind_at(t, at) != TokenKindView::Eof,
        pattern(t, at) == (arrow, Ok::<Pattern, Seq<char>>(arm.pattern)),
        kind_at(t, arrow) == TokenKindView::Arrow,
        expression(t, arrow + 1) == (end, Ok::<ExprView, Seq<char>>(arm.expr)),
        at < end <= t.len(),
    ensures
        match_arms(t, at, before) == match_arms(t, newlines(t, end), before.push(arm)),
{
    reveal(match_arms);
    reveal(expression);
    assert(arm == MatchArmView { pattern: arm.pattern, expr: arm.expr });
}

/// Arguments up to the closing parenthesis, by the first and the rest.
pub proof fn lemma_arguments_parts(
    t: Seq<TokenView>,
    at: int,
    next: int,
    close: int,
    first: ExprView,
    args: Seq<ExprView>,
)
    requires
        kind_at(t, at) != TokenKindView::RParen,
        expression(t, at) == (next, Ok::<ExprView, Seq<char>>(first)),
        at < next <= t.len(),
        more_arguments(t, next, seq![first]) == (close, Ok::<Seq<ExprView>, Seq<char>>(args)),
        kind_at(t, close) == TokenKindView::RParen,
    ensures
        call_arguments(t, at) == (close + 1, Ok::<Seq<ExprView>, Seq<char>>(args)),
{
    reveal(call_arguments);
    reveal(arguments);
    reveal(expression);
    reveal(more_arguments);
}

/// No arguments.
pub proof fn lemma_no_arguments(t: Seq<TokenView>, at: int)
    requires
        kind_at(t, at) == TokenKindView::RParen,
    ensures
        call_arguments(t, at) == (at + 1, Ok::<Seq<ExprView>, Seq<char>>(Seq::empty())),
{
    reveal(call_arguments);
    reveal(arguments);
}

/// What is written reads back, and what follows is read on behind it.
proof fn lemma_written(e: ExprView, least: int, t: Seq<TokenView>, at: int)
    requires
        0 <= least <= 3,
        writable(e),
        stands(t, at, written(e, least)),
        stops(kind_at(t, at + written(e, least).len()), least + 1),
    ensures
        read_at(t, at, least) == read_on(t, at + written(e, least).len(), least, e),
    decreases e, 8int,
{
    if level(e) < least {
        let close = at + 1 + bare(e).len();
        let open = seq![TokenKindView::LParen];
        lemma_split(t, at, open + bare(e), seq![TokenKindView::RParen]);
        lemma_head(t, at, TokenKindView::LParen, bare(e));
        lemma_one(t, close, TokenKindView::RParen);
        lemma_bare(e, 0, t, at + 1);
        lemma_stopped(t, close, 0, e);
        lemma_written_start(e, 0);
        assert(t[at + 1].kind == bare(e)[0]);
        lemma_in_parentheses(t, at, close, e);
        lemma_primary_read(t, at, close + 1, least, e);
    } else {
        lemma_bare(e, least, t, at);
    }
}

/// An expression that is followed by something that cannot continue it.
proof fn lemma_expression(e: ExprView, t: Seq<TokenView>, at: int)
    requires
        writable(e),
        stands(t, at, written(e, 0)),
        stops(kind_at(t, at + written(e, 0).len()), 0),
    ensures
        expression(t, at) == (at + written(e, 0).len(), Ok::<ExprView, Seq<char>>(e)),
    decreases e, 9int,
{
    lemma_written(e, 0, t, at);
    lemma_stopped(t, at + written(e, 0).len(), 0, e);
    reveal(expression);
    reveal(equality);
}

proof fn lemma_bare(e: ExprView, least: int, t: Seq<TokenView>, at: int)
    requires
        0 <= least <= level(e),
        writable(e),
        stands(t, at, bare(e)),
        stops(kind_at(t, at + bare(e).len()), least + 1),
    ensures
        read_at(t, at, least) == read_on(t, at + bare(e).len(), least, e),
    decreases e, 5 - least,
{
    let end = at + bare(e).len();
    lemma_written_start(e, 0);
    if least < level(e) {
        lemma_bare(e, least + 1, t, at);
        lemma_stopped(t, end, least + 1, e);
        lemma_lowered(t, at, end, least, e);
    } else {
        match e {
            ExprView::Binary { op, left, right } => lemma_binary(op, *left, *right, e, t, at),
            ExprView::MethodCall { receiver, name, args } => lemma_method(
                *receiver,
                name,
                args,
                e,
                t,
                at,
            ),
            _ => {
                lemma_primary_written(e, t, at);
                lemma_primary_read(t, at, end, 3, e);
            },
        }
    }
}

proof fn lemma_binary(
    op: BinaryOp,
    left: ExprView,
    right: ExprView,
    e: ExprView,
    t: Seq<TokenView>,
    at: int,
)
    requires
        e == binary(op, left, right),
        writable(e),
        stands(t, at, bare(e)),
        stops(kind_at(t, at + bare(e).len()), op_level(op) + 1),
    ensures
        read_at(t, at, op_level(op)) == read_on(t, at + bare(e).len(), op_level(op), e),
    decreases e, 1int,
{
    let least = op_level(op);
    let end = at + bare(e).len();
    let front = written(left, least);
    let back = written(right, least + 1);
    let middle = at + front.len();
    lemma_split(t, at, front, seq![op_kind(op)] + back);
    lemma_head(t, middle, op_kind(op), back);
    lemma_written(left, least, t, at);
    lemma_written(right, least + 1, t, middle + 1);
    lemma_stopped(t, end, least + 1, right);
    lemma_operator(t, middle, end, op, left, right);
}

proof fn lemma_method(
    receiver: ExprView,
    name: Seq<char>,
    args: Seq<ExprView>,
    e: ExprView,
    t: Seq<TokenView>,
    at: int,
)
    requires
        e == (ExprView::MethodCall { receiver: Box::new(receiver), name, args }),
        writable(e),
        stands(t, at, bare(e)),
    ensures
        read_at(t, at, 3) == read_on(t, at + bare(e).len(), 3, e),
    decreases e, 1int,
{
    let front = written(receiver, 3);
    let middle = at + front.len();
    let called = seq![TokenKindView::Dot, TokenKindView::Ident(name)];
    lemma_split(t, at, front, called + args_tokens(args));
    lemma_split(t, middle, called, args_tokens(args));
    lemma_two(t, middle, TokenKindView::Dot, TokenKindView::Ident(name));
    lemma_written(receiver, 3, t, at);
    lemma_args(args, t, middle + 2);
    reveal(more_postfix);
    reveal(call_arguments);
}

proof fn lemma_primary_written(e: ExprView, t: Seq<TokenView>, at: int)
    requires
        !(e is Binary),
        !(e is MethodCall),
        writable(e),
        stands(t, at, bare(e)),
        stops(kind_at(t, at + bare(e).len()), 4),
    ensures
        primary(t, at) == (at + bare(e).len(), Ok::<ExprView, Seq<char>>(e)),
    decreases e, 1int,
{
    lemma_primary(t, at);
    match e {
        ExprView::Int(value) => lemma_one(t, at, TokenKindView::Int(value)),
        ExprView::Bool(value) => lemma_one(t, at, bool_kind(value)),
        ExprView::Unit => {
            lemma_two(t, at, TokenKindView::LParen, TokenKindView::RParen);
            reveal(parenthesized);
        },
        ExprView::Var(name) => {
            lemma_one(t, at, TokenKindView::Ident(name));
            reveal(named);
        },
        ExprView::Call { name, args } => {
            let front = name_tokens(name);
            lemma_split(t, at, front, args_tokens(args));
            lemma_args(args, t, at + front.len());
            lemma_name(name, t, at);
            reveal(named);
            reveal(call_arguments);
        },
        ExprView::Match { scrutinee, arms } => lemma_match(*scrutinee, arms, e, t, at),
        ExprView::Block(inner) => lemma_block(inner, t, at),
        _ => {},
    }
}

/// A name that no exclamation mark follows.
pub proof fn lemma_name(name: Seq<char>, t: Seq<TokenView>, at: int)
    requires
        stands(t, at, name_tokens(name)),
        kind_at(t, at + name_tokens(name).len()) != TokenKindView::Bang,
    ensures
        kind_at(t, at) is Ident,
        function_name(t, at) == (at + name_tokens(name).len(), Ok::<Seq<char>, Seq<char>>(name)),
{
    if ends_with_bang(name) {
        lemma_two(t, at, TokenKindView::Ident(name.drop_last()), TokenKindView::Bang);
        assert(name.drop_last().push('!') =~= name);
    } else {
        lemma_one(t, at, TokenKindView::Ident(name));
    }
}

proof fn lemma_match(
    scrutinee: ExprView,
    arms: Seq<MatchArmView>,
    e: ExprView,
    t: Seq<TokenView>,
    at: int,
)
    requires
        e == (ExprView::Match { scrutinee: Box::new(scrutinee), arms }),
        writable(e),
        stands(t, at, bare(e)),
    ensures
        kind_at(t, at) == TokenKindView::Match,
        match_expression(t, at) == (at + bare(e).len(), Ok::<ExprView, Seq<char>>(e)),
    decreases e, 0int,
{
    let front = written(scrutinee, 0);
    let open = at + 1 + front.len();
    let lines = arms_tokens(arms, 0);
    let close = seq![TokenKindView::RBrace];
    let braced = seq![TokenKindView::LBrace] + (lines + close);
    lemma_head(t, at, TokenKindView::Match, front + braced);
    lemma_split(t, at + 1, front, braced);
    lemma_head(t, open, TokenKindView::LBrace, lines + close);
    lemma_split(t, open + 1, lines, close);
    lemma_one(t, open + 1 + lines.len(), TokenKindView::RBrace);
    lemma_expression(scrutinee, t, at + 1);
    lemma_written_start(scrutinee, 0);
    lemma_arms(arms, 0, t, open + 1);
    assert(arms.take(0) =~= Seq::empty());
    lemma_match_parts(t, at, open, open + 1 + lines.len(), scrutinee, arms);
}

pub proof fn lemma_pattern(p: Pattern, t: Seq<TokenView>, at: int)
    requires
        stands(t, at, pattern_tokens(p)),
    ensures
        pattern(t, at) == (at + pattern_tokens(p).len(), Ok::<Pattern, Seq<char>>(p)),
        kind_at(t, at) != TokenKindView::RBrace,
        kind_at(t, at) != TokenKindView::Eof,
        kind_at(t, at) != TokenKindView::Newline,
{
    match p {
        Pattern::Int(value) => lemma_one(t, at, TokenKindView::Int(value)),
        Pattern::Bool(value) => lemma_one(t, at, bool_kind(value)),
        Pattern::Unit => lemma_two(t, at, TokenKindView::LParen, TokenKindView::RParen),
        Pattern::Wildcard => lemma_one(t, at, TokenKindView::Ident("_"@)),
    }
}

proof fn lemma_arms(arms: Seq<MatchArmView>, i: int, t: Seq<TokenView>, at: int)
    requires
        0 <= i <= arms.len(),
        arms_writable(arms, i),
        stands(t, at, arms_tokens(arms, i)),
        kind_at(t, at + arms_tokens(arms, i).len()) == TokenKindView::RBrace,
    ensures
        newlines(t, at) == at,
        match_arms(t, at, arms.take(i)) == (at + arms_tokens(arms, i).len(), Ok::<
            Seq<MatchArmView>,
            Seq<char>,
        >(arms)),
    decreases arms, arms.len() - i,
{
    if i < arms.len() {
        let arm = arms[i];
        let front = pattern_tokens(arm.pattern);
        let body = written(arm.expr, 0);
        let rest = arms_tokens(arms, i + 1);
        let line = seq![TokenKindView::Newline] + rest;
        let arrow = at + front.len();
        let end = arrow + 1 + body.len();
        lemma_split(t, at, front, seq![TokenKindView::Arrow] + (body + line));
        lemma_pattern(arm.pattern, t, at);
        lemma_head(t, arrow, TokenKindView::Arrow, body + line);
        lemma_split(t, arrow + 1, body, line);
        lemma_head(t, end, TokenKindView::Newline, rest);
        lemma_expression(arm.expr, t, arrow + 1);
        lemma_arms(arms, i + 1, t, end + 1);
        assert(newlines(t, end) == newlines(t, end + 1));
        assert(arms.take(i).push(arm) =~= arms.take(i + 1));
        lemma_arm_parts(t, at, arrow, end, arm, arms.take(i));
    } else {
        assert(arms.take(i) =~= arms);
        reveal(match_arms);
    }
}

proof fn lemma_block(inner: BlockView, t: Seq<TokenView>, at: int)
    requires
        block_writable(inner),
        stands(t, at, block_tokens(inner)),
    ensures
        kind_at(t, at) == TokenKindView::LBrace,
        block(t, at) == (at + block_tokens(inner).len(), Ok::<BlockView, Seq<char>>(inner)),
    decreases inner, 0int,
{
    let lines = items_tokens(inner.items, 0);
    let close = seq![TokenKindView::RBrace];
    lemma_head(t, at, TokenKindView::LBrace, lines + close);
    lemma_split(t, at + 1, lines, close);
    lemma_one(t, at + 1 + lines.len(), TokenKindView::RBrace);
    lemma_items(inner.items, 0, t, at + 1);
    assert(inner.items.take(0) =~= Seq::empty());
    reveal(block);
    reveal(block_items);
}

/// A binding, by its name and its expression.
pub proof fn lemma_binding_parts(t: Seq<TokenView>, at: int, name: Seq<char>)
    requires
        bound_name(t, at) == Some(name),
        expression(t, at + 2).1 is Ok,
    ensures
        block_item(t, at) == (expression(t, at + 2).0, Ok::<BlockItemView, Seq<char>>(
            BlockItemView::Binding { name, expr: expression(t, at + 2).1->Ok_0 },
        )),
{
    reveal(block_item);
    reveal(expression);
}

/// An item that starts as no binding.
pub proof fn lemma_expression_item(t: Seq<TokenView>, at: int)
    requires
        bound_name(t, at) is None,
        expression(t, at).1 is Ok,
    ensures
        block_item(t, at) == (expression(t, at).0, Ok::<BlockItemView, Seq<char>>(
            BlockItemView::Expr(expression(t, at).1->Ok_0),
        )),
{
    reveal(block_item);
    reveal(expression);
}

/// One item that a newline follows.
proof fn lemma_item(item: BlockItemView, t: Seq<TokenView>, at: int)
    requires
        item_writable(item),
        stands(t, at, item_tokens(item)),
        kind_at(t, at + item_tokens(item).len()) == TokenKindView::Newline,
    ensures
        item_tokens(item).len() > 0,
        block_item(t, at) == (at + item_tokens(item).len(), Ok::<BlockItemView, Seq<char>>(item)),
        starts_expression(kind_at(t, at)),
    decreases item, 0int,
{
    match item {
        BlockItemView::Binding { name, expr } => {
            let front = seq![TokenKindView::Ident(name), TokenKindView::Eq];
            lemma_split(t, at, front, written(expr, 0));
            lemma_two(t, at, TokenKindView::Ident(name), TokenKindView::Eq);
            lemma_expression(expr, t, at + 2);
            lemma_binding_parts(t, at, name);
        },
        BlockItemView::Expr(expr) => {
            let body = written(expr, 0);
            lemma_written_start(expr, 0);
            assert(t[at].kind == body[0]);
            if body.len() > 1 {
                assert(t[at + 1].kind == body[1]);
            }
            lemma_expression(expr, t, at);
            lemma_expression_item(t, at);
        },
    }
}

proof fn lemma_items(items: Seq<BlockItemView>, i: int, t: Seq<TokenView>, at: int)
    requires
        0 <= i <= items.len(),
        items_writable(items, i),
        stands(t, at, items_tokens(items, i)),
        kind_at(t, at + items_tokens(items, i).len()) == TokenKindView::RBrace,
    ensures
        newlines(t, at) == at,
        block_items(t, at, items.take(i)) == (at + items_tokens(items, i).len(), Ok::<
            Seq<BlockItemView>,
            Seq<char>,
        >(items)),
    decreases items, items.len() - i,
{
    reveal(block_items);
    reveal(block_item);
    if i < items.len() {
        let front = item_tokens(items[i]);
        let rest = items_tokens(items, i + 1);
        let end = at + front.len();
        lemma_split(t, at, front, seq![TokenKindView::Newline] + rest);
        lemma_head(t, end, TokenKindView::Newline, rest);
        lemma_item(items[i], t, at);
        lemma_items(items, i + 1, t, end + 1);
        assert(newlines(t, end) == newlines(t, end + 1));
        assert(items.take(i).push(items[i]) =~= items.take(i + 1));
    } else {
        assert(items.take(i) =~= items);
    }
}

proof fn lemma_args(args: Seq<ExprView>, t: Seq<TokenView>, at: int)
    requires
        all_writable(args, 0),
        stands(t, at, args_tokens(args)),
    ensures
        kind_at(t, at) == TokenKindView::LParen,
        call_arguments(t, at + 1) == (at + args_tokens(args).len(), Ok::<
            Seq<ExprView>,
            Seq<char>,
        >(args)),
    decreases args, args.len() + 1,
{
    let close = seq![TokenKindView::RParen];
    let inner = if args.len() == 0 {
        Seq::empty()
    } else {
        written(args[0], 0) + more_args_tokens(args, 1)
    };
    let last = at + 1 + inner.len();
    lemma_head(t, at, TokenKindView::LParen, inner + close);
    lemma_split(t, at + 1, inner, close);
    lemma_one(t, last, TokenKindView::RParen);
    if args.len() == 0 {
        assert(args =~= Seq::empty());
        lemma_no_arguments(t, at + 1);
    } else {
        let front = written(args[0], 0);
        lemma_split(t, at + 1, front, more_args_tokens(args, 1));
        lemma_written_start(args[0], 0);
        assert(t[at + 1].kind == front[0]);
        lemma_more_args(args, 1, t, at + 1 + front.len());
        lemma_expression(args[0], t, at + 1);
        assert(args.take(1) =~= seq![args[0]]);
        lemma_arguments_parts(t, at + 1, at + 1 + front.len(), last, args[0], args);
    }
}

proof fn lemma_more_args(args: Seq<ExprView>, i: int, t: Seq<TokenView>, at: int)
    requires
        0 <= i <= args.len(),
        all_writable(args, i),
        stands(t, at, more_args_tokens(args, i)),
        kind_at(t, at + more_args_tokens(args, i).len()) == TokenKindView::RParen,
    ensures
        more_arguments(t, at, args.take(i)) == (at + more_args_tokens(args, i).len(), Ok::<
            Seq<ExprView>,
            Seq<char>,
        >(args)),
        kind_at(t, at) == TokenKindView::RParen || kind_at(t, at) == TokenKindView::Comma,
    decreases args, args.len() - i,
{
    reveal(more_arguments);
    reveal(expression);
    if i < args.len() {
        let front = written(args[i], 0);
        let rest = more_args_tokens(args, i + 1);
        lemma_head(t, at, TokenKindView::Comma, front + rest);
        lemma_split(t, at + 1, front, rest);
        lemma_written_start(args[i], 0);
        lemma_more_args(args, i + 1, t, at + 1 + front.len());
        lemma_expression(args[i], t, at + 1);
        assert(args.take(i).push(args[i]) =~= args.take(i + 1));
    } else {
        assert(args.take(i) =~= args);
    }
}

proof fn lemma_more_params(params: Seq<Seq<char>>, i: int, t: Seq<TokenView>, at: int)
    requires
        0 <= i <= params.len(),
        stands(t, at, more_params_tokens(params, i)),
        kind_at(t, at + more_params_tokens(params, i).len()) == TokenKindView::RParen,
    ensures
        more_identifiers(t, at, params.take(i)) == (at + more_params_tokens(params, i).len(), Ok::<
            Seq<Seq<char>>,
            Seq<char>,
        >(params)),
    decreases params.len() - i,
{
    if i < params.len() {
        let front = seq![TokenKindView::Comma, TokenKindView::Ident(params[i])];
        lemma_split(t, at, front, more_params_tokens(params, i + 1));
        lemma_two(t, at, TokenKindView::Comma, TokenKindView::Ident(params[i]));
        lemma_more_params(params, i + 1, t, at + 2);
        assert(params.take(i).push(params[i]) =~= params.take(i + 1));
    } else {
        assert(params.take(i) =~= params);
    }
}

pub proof fn lemma_params(params: Seq<Seq<char>>, t: Seq<TokenView>, at: int)
    requires
        stands(t, at, params_tokens(params)),
    ensures
        kind_at(t, at) == TokenKindView::LParen,
        identifiers(t, at + 1) == (at + params_tokens(params).len() - 1, Ok::<
            Seq<Seq<char>>,
            Seq<char>,
        >(params)),
        kind_at(t, at + params_tokens(params).len() - 1) == TokenKindView::RParen,
{
    let close = seq![TokenKindView::RParen];
    let inner = if params.len() == 0 {
        Seq::empty()
    } else {
        seq![TokenKindView::Ident(params[0])] + more_params_tokens(params, 1)
    };
    lemma_head(t, at, TokenKindView::LParen, inner + close);
    lemma_split(t, at + 1, inner, close);
    lemma_one(t, at + 1 + inner.len(), TokenKindView::RParen);
    if params.len() == 0 {
        assert(params =~= Seq::empty());
    } else {
        lemma_head(t, at + 1, TokenKindView::Ident(params[0]), more_params_tokens(params, 1));
        lemma_more_params(params, 1, t, at + 2);
        assert(params.take(1) =~= seq![params[0]]);
    }
}

proof fn lemma_function_written(f: FunctionView, t: Seq<TokenView>, at: int)
    requires
        block_writable(f.body),
        stands(t, at, function_tokens(f)),
    ensures
        kind_at(t, at) == TokenKindView::Fn,
        function(t, at) == (at + function_tokens(f).len(), Ok::<FunctionView, Seq<char>>(f)),
{
    let name = name_tokens(f.name);
    let params = params_tokens(f.params);
    let arrow = annotation_tokens(f.return_annotation);
    let body = block_tokens(f.body);
    let open = at + 1 + name.len();
    let start = open + params.len();
    lemma_head(t, at, TokenKindView::Fn, name + (params + (arrow + body)));
    lemma_split(t, at + 1, name, params + (arrow + body));
    lemma_split(t, open, params, arrow + body);
    lemma_split(t, start, arrow, body);
    lemma_params(f.params, t, open);
    lemma_name(f.name, t, at + 1);
    lemma_block(f.body, t, start + arrow.len());
    assert(annotation(t, start) == (start + arrow.len(), Ok::<Option<PrimType>, Seq<char>>(
        f.return_annotation,
    ))) by {
        if let Some(ty) = f.return_annotation {
            lemma_two(t, start, TokenKindView::Arrow, TokenKindView::Ident(type_name_of(ty)));
            lemma_type_name(ty);
        }
    }
    reveal(function);
}

/// The name of a type stands for that type.
proof fn lemma_type_name(ty: PrimType)
    ensures
        type_named(type_name_of(ty)) == Some(ty),
{
    reveal_strlit("I32");
    reveal_strlit("i32");
    reveal_strlit("Bool");
    reveal_strlit("bool");
    reveal_strlit("Unit");
    reveal_strlit("unit");
    assert("I32"@[0] == 'I' && "i32"@[0] == 'i');
    assert("Bool"@[0] == 'B' && "bool"@[0] == 'b');
    assert("Unit"@[0] == 'U' && "unit"@[0] == 'u');
}

proof fn lemma_functions(functions: Seq<FunctionView>, i: int, t: Seq<TokenView>, at: int)
    requires
        0 <= i <= functions.len(),
        forall|k: int|
            0 <= k < functions.len() ==> block_writable((#[trigger] functions[k]).body),
        stands(t, at, functions_tokens(functions, i)),
        kind_at(t, at + functions_tokens(functions, i).len()) == TokenKindView::Eof,
    ensures
        newlines(t, at) == at,
        declarations(t, at, functions.take(i)) == (at + functions_tokens(functions, i).len(), Ok::<
            Seq<FunctionView>,
            Seq<char>,
        >(functions)),
    decreases functions.len() - i,
{
    reveal(declarations);
    if i < functions.len() {
        let front = function_tokens(functions[i]);
        let rest = functions_tokens(functions, i + 1);
        let end = at + front.len();
        lemma_split(t, at, front, seq![TokenKindView::Newline] + rest);
        lemma_head(t, end, TokenKindView::Newline, rest);
        lemma_function_written(functions[i], t, at);
        lemma_functions(functions, i + 1, t, end + 1);
        assert(newlines(t, end) == newlines(t, end + 1));
        assert(functions.take(i).push(functions[i]) =~= functions.take(i + 1));
        reveal(attributes);
        assert(declaration(t, at) == function(t, at));
    } else {
        assert(functions.take(i) =~= functions);
    }
}

/// A program that is written down reads back as that program, to the end of the tokens: products
/// bind before sums and differences, these before comparisons, and operators that bind alike
/// associate to the left.
pub proof fn law_reads_back(p: ProgramView, t: Seq<TokenView>)
    requires
        program_writable(p),
        kinds(t) == program_tokens(p).push(TokenKindView::Eof),
    ensures
        program(t, 0) == (t.len() - 1, Ok::<ProgramView, Seq<char>>(p)),
{
    let k = program_tokens(p);
    assert(kinds(t).len() == t.len());
    assert forall|i: int| 0 <= i < k.len() implies (#[trigger] t[i]).kind == k[i] by {
        assert(kinds(t)[i] == k[i]);
    }
    assert(kinds(t)[k.len() as int] == TokenKindView::Eof);
    lemma_functions(p.functions, 0, t, 0);
    assert(p.functions.take(0) =~= Seq::empty());
}

} // verus!
