//! What is accepted as a program is written as one.
use vstd::prelude::*;

use crate::seed::ast::{
    BinaryOp, BlockItemView, BlockView, ExprView, FunctionView, MatchArmView, PrimType, ProgramView,
};
use crate::seed::grammar::{
    additive, annotation, arguments, attribute, attribute_arguments, attributes, binary, block,
    block_item, block_items, bound_name, call_arguments, comparison, declarations, equality,
    expression, function, function_name, identifiers, kind_at, lemma_newlines, lemma_primary,
    match_arms, match_expression, more_arguments, more_equality, more_identifiers, more_postfix,
    more_product, more_sum, named, newlines, parenthesized, pattern, postfix, primary, product,
    program, sum, type_named, Parsed,
};
use crate::seed::lexer::{TokenKindView, TokenView};
use crate::seed::reading::stands;
use crate::seed::syntax::{
    all_meant, arm_meant, arm_tokens, arms_meant, arms_tokens, args_tokens, attribute_tokens,
    attributes_tokens, block_meant, block_tokens, feeds, form_level, form_tokens, function_meant,
    function_tokens, functions_tokens, header_tokens, item_meant, item_tokens, items_meant,
    items_tokens, meant, more_args_tokens, program_meant, ret_tokens, type_word, Form, FormArm,
    FormAttribute, FormBlock, FormFunction, FormItem, FormProgram,
};
use crate::seed::writing::{
    kinds, more_params_tokens, name_tokens, op_kind, op_level, params_tokens, pattern_tokens,
};
use crate::text::ends_with_bang;

verus! {

/// Operands bind tightly enough, and variables have no mark.
pub open spec fn grouped(form: Form) -> bool
    decreases form, 0int,
{
    match form {
        Form::Int(_) | Form::Bool(_) | Form::Unit => true,
        Form::Var(name) => !ends_with_bang(name),
        Form::Paren(inner) => grouped(*inner),
        Form::Call { args, .. } => all_grouped(args),
        Form::Method { receiver, args, .. } => grouped(*receiver) && form_level(*receiver) == 3
            && all_grouped(args),
        Form::Binary { op, left, right } => grouped(*left) && grouped(*right) && form_level(*left)
            >= op_level(op) && form_level(*right) > op_level(op),
        Form::Match { scrutinee, arms, .. } => grouped(*scrutinee) && arms_grouped(arms),
        Form::Block(block) => block_grouped(block),
    }
}

pub open spec fn all_grouped(list: Seq<Form>) -> bool
    decreases list, 0int,
{
    forall|i: int| 0 <= i < list.len() ==> grouped(#[trigger] list[i])
}

pub open spec fn arm_grouped(arm: FormArm) -> bool
    decreases arm, 0int,
{
    grouped(arm.expr)
}

pub open spec fn arms_grouped(arms: Seq<FormArm>) -> bool
    decreases arms, 0int,
{
    forall|i: int| 0 <= i < arms.len() ==> arm_grouped(#[trigger] arms[i])
}

pub open spec fn item_grouped(item: FormItem) -> bool
    decreases item, 0int,
{
    grouped(item.expr)
}

pub open spec fn block_grouped(block: FormBlock) -> bool
    decreases block, 0int,
{
    items_grouped(block.items)
}

pub open spec fn items_grouped(items: Seq<FormItem>) -> bool
    decreases items, 0int,
{
    forall|i: int| 0 <= i < items.len() ==> item_grouped(#[trigger] items[i])
}

proof fn lemma_join(t: Seq<TokenView>, at: int, a: Seq<TokenKindView>, b: Seq<TokenKindView>)
    requires
        stands(t, at, a),
        stands(t, at + a.len(), b),
    ensures
        stands(t, at, a + b),
{
}

proof fn lemma_single(t: Seq<TokenView>, at: int, kind: TokenKindView)
    requires
        0 <= at,
        kind_at(t, at) == kind,
        kind != TokenKindView::Eof,
    ensures
        stands(t, at, seq![kind]),
{
}

proof fn lemma_double(t: Seq<TokenView>, at: int, a: TokenKindView, b: TokenKindView)
    requires
        0 <= at,
        kind_at(t, at) == a,
        kind_at(t, at + 1) == b,
        a != TokenKindView::Eof,
        b != TokenKindView::Eof,
    ensures
        stands(t, at, seq![a, b]),
{
}

/// The newlines that are skipped.
proof fn lemma_skipped(t: Seq<TokenView>, at: int)
    requires
        0 <= at <= t.len(),
    ensures
        at <= newlines(t, at) <= t.len(),
        stands(t, at, feeds((newlines(t, at) - at) as nat)),
    decreases t.len() - at,
{
    lemma_newlines(t, at);
    if kind_at(t, at) == TokenKindView::Newline {
        lemma_skipped(t, at + 1);
        let rest = feeds((newlines(t, at + 1) - (at + 1)) as nat);
        lemma_single(t, at, TokenKindView::Newline);
        lemma_join(t, at, seq![TokenKindView::Newline], rest);
        assert(seq![TokenKindView::Newline] + rest =~= feeds((newlines(t, at) - at) as nat));
    }
}

/// The form is written from `at` to the end of what was read, and means what was read.
pub open spec fn written(
    t: Seq<TokenView>,
    at: int,
    read: Parsed<ExprView>,
    form: Form,
    least: int,
) -> bool {
    &&& stands(t, at, form_tokens(form))
    &&& form_tokens(form).len() > 0
    &&& read == (at + form_tokens(form).len(), Ok::<ExprView, Seq<char>>(meant(form)))
    &&& grouped(form)
    &&& form_level(form) >= least
}

proof fn derive_expression(t: Seq<TokenView>, at: int) -> (form: Form)
    requires
        unmarked(t),
        0 <= at,
        expression(t, at).1 is Ok,
    ensures
        written(t, at, expression(t, at), form, 0),
    decreases t.len() - at, 7int,
{
    reveal(expression);
    reveal(equality);
    reveal(more_equality);
    reveal(sum);
    let left = derive_sum(t, at);
    derive_more_equality(t, at, at + form_tokens(left).len(), left)
}

/// An operator and its right operand behind the left one.
proof fn lemma_operated(
    t: Seq<TokenView>,
    start: int,
    at: int,
    op: BinaryOp,
    left: Form,
    right: Form,
) -> (form: Form)
    requires
        stands(t, start, form_tokens(left)),
        at == start + form_tokens(left).len(),
        kind_at(t, at) == op_kind(op),
        stands(t, at + 1, form_tokens(right)),
        grouped(left),
        grouped(right),
        form_level(left) >= op_level(op),
        form_level(right) > op_level(op),
        form_tokens(left).len() > 0,
    ensures
        stands(t, start, form_tokens(form)),
        form_tokens(form).len() == form_tokens(left).len() + 1 + form_tokens(right).len(),
        meant(form) == binary(op, meant(left), meant(right)),
        grouped(form),
        form_level(form) == op_level(op),
{
    let form = Form::Binary { op, left: Box::new(left), right: Box::new(right) };
    lemma_single(t, at, op_kind(op));
    lemma_join(t, at, seq![op_kind(op)], form_tokens(right));
    lemma_join(t, start, form_tokens(left), seq![op_kind(op)] + form_tokens(right));
    form
}

proof fn derive_more_equality(t: Seq<TokenView>, start: int, at: int, left: Form) -> (form: Form)
    requires
        unmarked(t),
        stands(t, start, form_tokens(left)),
        form_tokens(left).len() > 0,
        at == start + form_tokens(left).len(),
        grouped(left),
        more_equality(t, at, meant(left)).1 is Ok,
    ensures
        written(t, start, more_equality(t, at, meant(left)), form, 0),
    decreases t.len() - at, 0int,
{
    reveal(more_equality);
    reveal(sum);
    if let Some(op) = comparison(kind_at(t, at)) {
        let right = derive_sum(t, at + 1);
        let both = lemma_operated(t, start, at, op, left, right);
        derive_more_equality(t, start, at + 1 + form_tokens(right).len(), both)
    } else {
        left
    }
}

proof fn derive_sum(t: Seq<TokenView>, at: int) -> (form: Form)
    requires
        unmarked(t),
        0 <= at,
        sum(t, at).1 is Ok,
    ensures
        written(t, at, sum(t, at), form, 1),
    decreases t.len() - at, 5int,
{
    reveal(sum);
    reveal(more_sum);
    reveal(product);
    let left = derive_product(t, at);
    derive_more_sum(t, at, at + form_tokens(left).len(), left)
}

proof fn derive_more_sum(t: Seq<TokenView>, start: int, at: int, left: Form) -> (form: Form)
    requires
        unmarked(t),
        stands(t, start, form_tokens(left)),
        form_tokens(left).len() > 0,
        at == start + form_tokens(left).len(),
        grouped(left),
        form_level(left) >= 1,
        more_sum(t, at, meant(left)).1 is Ok,
    ensures
        written(t, start, more_sum(t, at, meant(left)), form, 1),
    decreases t.len() - at, 0int,
{
    reveal(more_sum);
    reveal(product);
    if let Some(op) = additive(kind_at(t, at)) {
        let right = derive_product(t, at + 1);
        let both = lemma_operated(t, start, at, op, left, right);
        derive_more_sum(t, start, at + 1 + form_tokens(right).len(), both)
    } else {
        left
    }
}

proof fn derive_product(t: Seq<TokenView>, at: int) -> (form: Form)
    requires
        unmarked(t),
        0 <= at,
        product(t, at).1 is Ok,
    ensures
        written(t, at, product(t, at), form, 2),
    decreases t.len() - at, 4int,
{
    reveal(product);
    reveal(more_product);
    reveal(postfix);
    let left = derive_postfix(t, at);
    derive_more_product(t, at, at + form_tokens(left).len(), left)
}

proof fn derive_more_product(t: Seq<TokenView>, start: int, at: int, left: Form) -> (form: Form)
    requires
        unmarked(t),
        stands(t, start, form_tokens(left)),
        form_tokens(left).len() > 0,
        at == start + form_tokens(left).len(),
        grouped(left),
        form_level(left) >= 2,
        more_product(t, at, meant(left)).1 is Ok,
    ensures
        written(t, start, more_product(t, at, meant(left)), form, 2),
    decreases t.len() - at, 0int,
{
    reveal(more_product);
    reveal(postfix);
    if kind_at(t, at) == TokenKindView::Star {
        let right = derive_postfix(t, at + 1);
        let both = lemma_operated(t, start, at, BinaryOp::Mul, left, right);
        derive_more_product(t, start, at + 1 + form_tokens(right).len(), both)
    } else {
        left
    }
}

proof fn derive_postfix(t: Seq<TokenView>, at: int) -> (form: Form)
    requires
        unmarked(t),
        0 <= at,
        postfix(t, at).1 is Ok,
    ensures
        written(t, at, postfix(t, at), form, 3),
    decreases t.len() - at, 3int,
{
    reveal(postfix);
    reveal(more_postfix);
    reveal(primary);
    let receiver = derive_primary(t, at);
    derive_more_postfix(t, at, at + form_tokens(receiver).len(), receiver)
}

/// The arguments are written from `at` to the parenthesis that closes them.
pub open spec fn args_written(
    t: Seq<TokenView>,
    at: int,
    read: Parsed<Seq<ExprView>>,
    args: Seq<Form>,
) -> bool {
    &&& stands(t, at - 1, args_tokens(args))
    &&& args_tokens(args).len() > 1
    &&& read == (at - 1 + args_tokens(args).len(), Ok::<Seq<ExprView>, Seq<char>>(all_meant(args)))
    &&& all_grouped(args)
}

/// The parts of a method call.
proof fn lemma_method_parts(t: Seq<TokenView>, at: int, receiver: ExprView)
    requires
        more_postfix(t, at, receiver).1 is Ok,
    ensures
        kind_at(t, at) != TokenKindView::Dot ==> more_postfix(t, at, receiver) == (at, Ok::<
            ExprView,
            Seq<char>,
        >(receiver)),
        kind_at(t, at) == TokenKindView::Dot ==> {
            &&& kind_at(t, at + 1) is Ident
            &&& kind_at(t, at + 2) == TokenKindView::LParen
            &&& call_arguments(t, at + 3).1 is Ok
            &&& at < call_arguments(t, at + 3).0 <= t.len() ==> more_postfix(t, at, receiver)
                == more_postfix(
                t,
                call_arguments(t, at + 3).0,
                ExprView::MethodCall {
                    receiver: Box::new(receiver),
                    name: kind_at(t, at + 1)->Ident_0,
                    args: call_arguments(t, at + 3).1->Ok_0,
                },
            )
        },
{
    reveal(more_postfix);
    reveal(call_arguments);
}

/// The parts of a list of arguments.
proof fn lemma_list_parts(t: Seq<TokenView>, at: int)
    requires
        call_arguments(t, at).1 is Ok,
    ensures
        kind_at(t, at) == TokenKindView::RParen ==> call_arguments(t, at) == (at + 1, Ok::<
            Seq<ExprView>,
            Seq<char>,
        >(Seq::empty())),
        kind_at(t, at) != TokenKindView::RParen ==> {
            let (next, first) = expression(t, at);
            &&& first is Ok
            &&& at < next <= t.len() ==> {
                let (close, args) = more_arguments(t, next, seq![first->Ok_0]);
                &&& args is Ok
                &&& kind_at(t, close) == TokenKindView::RParen
                &&& call_arguments(t, at) == (close + 1, args)
            }
        },
{
    reveal(call_arguments);
    reveal(arguments);
    reveal(expression);
    reveal(more_arguments);
}

/// The parts of an item.
proof fn lemma_item_parts(t: Seq<TokenView>, at: int)
    requires
        block_item(t, at).1 is Ok,
    ensures
        match bound_name(t, at) {
            Some(name) => {
                let (end, expr) = expression(t, at + 2);
                &&& expr is Ok
                &&& block_item(t, at) == (end, Ok::<BlockItemView, Seq<char>>(
                    BlockItemView::Binding { name, expr: expr->Ok_0 },
                ))
            },
            None => {
                let (end, expr) = expression(t, at);
                &&& expr is Ok
                &&& block_item(t, at) == (end, Ok::<BlockItemView, Seq<char>>(
                    BlockItemView::Expr(expr->Ok_0),
                ))
            },
        },
{
    reveal(block_item);
    reveal(expression);
}

/// The parts of a list of arms.
proof fn lemma_arms_parts(t: Seq<TokenView>, at: int, before: Seq<MatchArmView>)
    requires
        match_arms(t, at, before).1 is Ok,
    ensures
        kind_at(t, at) == TokenKindView::RBrace ==> match_arms(t, at, before) == (at, Ok::<
            Seq<MatchArmView>,
            Seq<char>,
        >(before)),
        kind_at(t, at) != TokenKindView::RBrace ==> {
            let (arrow, found) = pattern(t, at);
            let (end, expr) = expression(t, arrow + 1);
            &&& found is Ok
            &&& kind_at(t, arrow) == TokenKindView::Arrow
            &&& expr is Ok
            &&& at < end <= t.len() ==> match_arms(t, at, before) == match_arms(
                t,
                newlines(t, end),
                before.push(MatchArmView { pattern: found->Ok_0, expr: expr->Ok_0 }),
            )
        },
{
    reveal(match_arms);
    reveal(expression);
}

/// The parts of a list of items.
proof fn lemma_items_parts(t: Seq<TokenView>, at: int, before: Seq<BlockItemView>)
    requires
        block_items(t, at, before).1 is Ok,
    ensures
        kind_at(t, at) == TokenKindView::RBrace ==> block_items(t, at, before) == (at, Ok::<
            Seq<BlockItemView>,
            Seq<char>,
        >(before)),
        kind_at(t, at) != TokenKindView::RBrace ==> {
            let (end, item) = block_item(t, at);
            &&& item is Ok
            &&& at < end <= t.len() ==> block_items(t, at, before) == block_items(
                t,
                newlines(t, end),
                before.push(item->Ok_0),
            )
        },
{
    reveal(block_items);
    reveal(block_item);
}

/// The parts of a match.
proof fn lemma_match_parts(t: Seq<TokenView>, at: int)
    requires
        kind_at(t, at) == TokenKindView::Match,
        match_expression(t, at).1 is Ok,
    ensures
        ({
            let (open, scrutinee) = expression(t, at + 1);
            &&& scrutinee is Ok
            &&& at < open <= t.len() ==> {
                let (close, arms) = match_arms(t, newlines(t, open + 1), Seq::empty());
                &&& kind_at(t, open) == TokenKindView::LBrace
                &&& arms is Ok
                &&& kind_at(t, close) == TokenKindView::RBrace
                &&& match_expression(t, at) == (close + 1, Ok::<ExprView, Seq<char>>(
                    ExprView::Match { scrutinee: Box::new(scrutinee->Ok_0), arms: arms->Ok_0 },
                ))
            }
        }),
{
    reveal(match_expression);
    reveal(expression);
    reveal(match_arms);
}

/// The parts of a call or a variable.
proof fn lemma_named_parts(t: Seq<TokenView>, at: int)
    requires
        named(t, at).1 is Ok,
    ensures
        ({
            let (next, name) = function_name(t, at);
            &&& name is Ok
            &&& kind_at(t, next) == TokenKindView::LParen ==> {
                let (end, args) = call_arguments(t, next + 1);
                &&& args is Ok
                &&& named(t, at) == (end, Ok::<ExprView, Seq<char>>(
                    ExprView::Call { name: name->Ok_0, args: args->Ok_0 },
                ))
            }
            &&& kind_at(t, next) != TokenKindView::LParen ==> !ends_with_bang(name->Ok_0) && named(
                t,
                at,
            ) == (next, Ok::<ExprView, Seq<char>>(ExprView::Var(name->Ok_0)))
        }),
{
    reveal(named);
    reveal(call_arguments);
}

proof fn derive_more_postfix(t: Seq<TokenView>, start: int, at: int, receiver: Form) -> (form: Form)
    requires
        unmarked(t),
        stands(t, start, form_tokens(receiver)),
        form_tokens(receiver).len() > 0,
        at == start + form_tokens(receiver).len(),
        grouped(receiver),
        form_level(receiver) == 3,
        more_postfix(t, at, meant(receiver)).1 is Ok,
    ensures
        written(t, start, more_postfix(t, at, meant(receiver)), form, 3),
    decreases t.len() - at, 0int,
{
    lemma_method_parts(t, at, meant(receiver));
    if kind_at(t, at) == TokenKindView::Dot {
        let name = kind_at(t, at + 1)->Ident_0;
        let args = derive_arguments(t, at + 3);
        let called = seq![TokenKindView::Dot, TokenKindView::Ident(name)];
        lemma_double(t, at, TokenKindView::Dot, TokenKindView::Ident(name));
        lemma_join(t, at, called, args_tokens(args));
        lemma_join(t, start, form_tokens(receiver), called + args_tokens(args));
        let form = Form::Method { receiver: Box::new(receiver), name, args };
        derive_more_postfix(t, start, at + 2 + args_tokens(args).len(), form)
    } else {
        receiver
    }
}

#[verifier::rlimit(30)]
proof fn derive_arguments(t: Seq<TokenView>, at: int) -> (args: Seq<Form>)
    requires
        unmarked(t),
        0 < at,
        kind_at(t, at - 1) == TokenKindView::LParen,
        call_arguments(t, at).1 is Ok,
    ensures
        args_written(t, at, call_arguments(t, at), args),
    decreases t.len() - at, 9int,
{
    lemma_list_parts(t, at);
    let open = seq![TokenKindView::LParen];
    let close = seq![TokenKindView::RParen];
    lemma_single(t, at - 1, TokenKindView::LParen);
    if kind_at(t, at) == TokenKindView::RParen {
        let none = Seq::<Form>::empty();
        lemma_single(t, at, TokenKindView::RParen);
        assert(Seq::<TokenKindView>::empty() + close =~= close);
        lemma_join(t, at - 1, open, close);
        assert(all_meant(none) =~= Seq::empty());
        none
    } else {
        let first = derive_expression(t, at);
        let next = at + form_tokens(first).len();
        assert(all_meant(seq![first]) =~= seq![meant(first)]);
        let args = derive_more_arguments(t, next, seq![first]);
        let more = more_args_tokens(args, 1);
        assert(args[0] == first) by {
            assert(args.take(1)[0] == seq![first][0]);
        }
        lemma_join(t, at, form_tokens(first), more);
        let inner = form_tokens(first) + more;
        lemma_single(t, next + more.len(), TokenKindView::RParen);
        lemma_join(t, at, inner, close);
        lemma_join(t, at - 1, open, inner + close);
        args
    }
}

proof fn derive_more_arguments(t: Seq<TokenView>, at: int, before: Seq<Form>) -> (args: Seq<Form>)
    requires
        unmarked(t),
        0 <= at <= t.len(),
        all_grouped(before),
        more_arguments(t, at, all_meant(before)).1 is Ok,
    ensures
        args.len() >= before.len(),
        args.take(before.len() as int) == before,
        all_grouped(args),
        stands(t, at, more_args_tokens(args, before.len() as int)),
        more_arguments(t, at, all_meant(before)) == (
            at + more_args_tokens(args, before.len() as int).len(),
            Ok::<Seq<ExprView>, Seq<char>>(all_meant(args)),
        ),
    decreases t.len() - at, 0int,
{
    reveal(more_arguments);
    reveal(expression);
    let n = before.len() as int;
    if kind_at(t, at) == TokenKindView::Comma {
        let arg = derive_expression(t, at + 1);
        let longer = before.push(arg);
        assert(all_meant(longer) =~= all_meant(before).push(meant(arg)));
        let args = derive_more_arguments(t, at + 1 + form_tokens(arg).len(), longer);
        assert(args[n] == arg) by {
            assert(args.take(n + 1)[n] == longer[n]);
        }
        assert(args.take(n) =~= before) by {
            assert forall|i: int| 0 <= i < n implies args[i] == before[i] by {
                assert(args.take(n + 1)[i] == longer[i]);
            }
        }
        let more = more_args_tokens(args, n + 1);
        lemma_join(t, at + 1, form_tokens(arg), more);
        lemma_single(t, at, TokenKindView::Comma);
        lemma_join(t, at, seq![TokenKindView::Comma], form_tokens(arg) + more);
        args
    } else {
        assert(before.take(n) =~= before);
        before
    }
}

proof fn derive_name(t: Seq<TokenView>, at: int)
    requires
        0 <= at,
        function_name(t, at).1 is Ok,
        !(kind_at(t, at) matches TokenKindView::Ident(name) && ends_with_bang(name)),
    ensures
        ({
            let name = function_name(t, at).1->Ok_0;
            &&& stands(t, at, name_tokens(name))
            &&& function_name(t, at).0 == at + name_tokens(name).len()
        }),
{
    let word = kind_at(t, at)->Ident_0;
    if kind_at(t, at + 1) == TokenKindView::Bang {
        lemma_double(t, at, TokenKindView::Ident(word), TokenKindView::Bang);
        assert(word.push('!').drop_last() =~= word);
    } else {
        lemma_single(t, at, TokenKindView::Ident(word));
    }
}

/// No word among the tokens ends with an exclamation mark, which is a token of its own.
pub open spec fn unmarked(t: Seq<TokenView>) -> bool {
    forall|i: int|
        0 <= i < t.len() ==> !((#[trigger] t[i]).kind matches TokenKindView::Ident(name)
            && ends_with_bang(name))
}

proof fn derive_primary(t: Seq<TokenView>, at: int) -> (form: Form)
    requires
        unmarked(t),
        0 <= at,
        primary(t, at).1 is Ok,
    ensures
        written(t, at, primary(t, at), form, 3),
    decreases t.len() - at, 2int,
{
    lemma_primary(t, at);
    match kind_at(t, at) {
        TokenKindView::Int(value) => {
            lemma_single(t, at, TokenKindView::Int(value));
            Form::Int(value)
        },
        TokenKindView::True => {
            lemma_single(t, at, TokenKindView::True);
            Form::Bool(true)
        },
        TokenKindView::False => {
            lemma_single(t, at, TokenKindView::False);
            Form::Bool(false)
        },
        TokenKindView::Ident(_) => derive_named(t, at),
        TokenKindView::Match => derive_match(t, at),
        TokenKindView::LBrace => {
            let inner = derive_block(t, at);
            let form = Form::Block(inner);
            assert(form_tokens(form) == block_tokens(inner));
            form
        },
        _ => derive_parenthesized(t, at),
    }
}

proof fn derive_parenthesized(t: Seq<TokenView>, at: int) -> (form: Form)
    requires
        unmarked(t),
        0 <= at,
        kind_at(t, at) == TokenKindView::LParen,
        parenthesized(t, at + 1).1 is Ok,
    ensures
        written(t, at, parenthesized(t, at + 1), form, 3),
    decreases t.len() - at, 1int,
{
    reveal(parenthesized);
    reveal(expression);
    if kind_at(t, at + 1) == TokenKindView::RParen {
        lemma_double(t, at, TokenKindView::LParen, TokenKindView::RParen);
        Form::Unit
    } else {
        let inner = derive_expression(t, at + 1);
        let close = at + 1 + form_tokens(inner).len();
        lemma_single(t, at, TokenKindView::LParen);
        lemma_single(t, close, TokenKindView::RParen);
        lemma_join(t, at + 1, form_tokens(inner), seq![TokenKindView::RParen]);
        lemma_join(
            t,
            at,
            seq![TokenKindView::LParen],
            form_tokens(inner) + seq![TokenKindView::RParen],
        );
        Form::Paren(Box::new(inner))
    }
}

proof fn derive_named(t: Seq<TokenView>, at: int) -> (form: Form)
    requires
        unmarked(t),
        0 <= at,
        kind_at(t, at) is Ident,
        named(t, at).1 is Ok,
    ensures
        written(t, at, named(t, at), form, 3),
    decreases t.len() - at, 1int,
{
    lemma_named_parts(t, at);
    assert(t[at].kind == kind_at(t, at));
    derive_name(t, at);
    let (next, result) = function_name(t, at);
    let name = result->Ok_0;
    if kind_at(t, next) == TokenKindView::LParen {
        let args = derive_arguments(t, next + 1);
        lemma_join(t, at, name_tokens(name), args_tokens(args));
        Form::Call { name, args }
    } else {
        assert(name_tokens(name) == seq![TokenKindView::Ident(name)]);
        Form::Var(name)
    }
}

proof fn derive_pattern(t: Seq<TokenView>, at: int)
    requires
        0 <= at,
        pattern(t, at).1 is Ok,
    ensures
        ({
            let found = pattern(t, at).1->Ok_0;
            &&& stands(t, at, pattern_tokens(found))
            &&& pattern(t, at).0 == at + pattern_tokens(found).len()
            &&& pattern_tokens(found).len() > 0
        }),
{
    match kind_at(t, at) {
        TokenKindView::LParen => lemma_double(t, at, TokenKindView::LParen, TokenKindView::RParen),
        kind => lemma_single(t, at, kind),
    }
}

#[verifier::rlimit(30)]
proof fn derive_match(t: Seq<TokenView>, at: int) -> (form: Form)
    requires
        unmarked(t),
        0 <= at,
        kind_at(t, at) == TokenKindView::Match,
        match_expression(t, at).1 is Ok,
    ensures
        written(t, at, match_expression(t, at), form, 3),
    decreases t.len() - at, 1int,
{
    lemma_match_parts(t, at);
    let scrutinee = derive_expression(t, at + 1);
    let front = form_tokens(scrutinee);
    let open = at + 1 + front.len();
    lemma_single(t, at, TokenKindView::Match);
    lemma_single(t, open, TokenKindView::LBrace);
    lemma_skipped(t, open + 1);
    let first = newlines(t, open + 1);
    let lines = (first - (open + 1)) as nat;
    let none = Seq::<FormArm>::empty();
    assert(arms_meant(none) =~= Seq::empty());
    let arms = derive_arms(t, first, none);
    let inner = arms_tokens(arms, 0);
    let last = seq![TokenKindView::RBrace];
    lemma_single(t, first + inner.len(), TokenKindView::RBrace);
    lemma_join(t, first, inner, last);
    lemma_join(t, open + 1, feeds(lines), inner + last);
    lemma_join(t, open, seq![TokenKindView::LBrace], feeds(lines) + (inner + last));
    let braced = seq![TokenKindView::LBrace] + (feeds(lines) + (inner + last));
    lemma_join(t, at + 1, front, braced);
    lemma_join(t, at, seq![TokenKindView::Match], front + braced);
    Form::Match { scrutinee: Box::new(scrutinee), lines, arms }
}

#[verifier::rlimit(30)]
proof fn derive_arms(t: Seq<TokenView>, at: int, before: Seq<FormArm>) -> (arms: Seq<FormArm>)
    requires
        unmarked(t),
        0 <= at <= t.len(),
        arms_grouped(before),
        match_arms(t, at, arms_meant(before)).1 is Ok,
    ensures
        arms.len() >= before.len(),
        arms.take(before.len() as int) == before,
        arms_grouped(arms),
        stands(t, at, arms_tokens(arms, before.len() as int)),
        match_arms(t, at, arms_meant(before)) == (
            at + arms_tokens(arms, before.len() as int).len(),
            Ok::<Seq<MatchArmView>, Seq<char>>(arms_meant(arms)),
        ),
    decreases t.len() - at, 8int,
{
    lemma_arms_parts(t, at, arms_meant(before));
    let n = before.len() as int;
    if kind_at(t, at) == TokenKindView::RBrace {
        assert(before.take(n) =~= before);
        before
    } else {
        derive_pattern(t, at);
        let (arrow, found) = pattern(t, at);
        let front = pattern_tokens(found->Ok_0);
        let body = derive_expression(t, arrow + 1);
        let end = arrow + 1 + form_tokens(body).len();
        lemma_skipped(t, end);
        let next = newlines(t, end);
        let arm = FormArm { pattern: found->Ok_0, expr: body, lines: (next - end) as nat };
        let longer = before.push(arm);
        assert(arms_meant(longer) =~= arms_meant(before).push(arm_meant(arm)));
        assert(arm_grouped(arm));
        let arms = derive_arms(t, next, longer);
        assert(arms[n] == arm) by {
            assert(arms.take(n + 1)[n] == longer[n]);
        }
        assert(arms.take(n) =~= before) by {
            assert forall|i: int| 0 <= i < n implies arms[i] == before[i] by {
                assert(arms.take(n + 1)[i] == longer[i]);
            }
        }
        let more = arms_tokens(arms, n + 1);
        let mark = seq![TokenKindView::Arrow];
        lemma_single(t, arrow, TokenKindView::Arrow);
        lemma_join(t, arrow + 1, form_tokens(body), feeds(arm.lines));
        lemma_join(t, arrow, mark, form_tokens(body) + feeds(arm.lines));
        lemma_join(t, at, front, mark + (form_tokens(body) + feeds(arm.lines)));
        assert(arm_tokens(arm) == front + (mark + (form_tokens(body) + feeds(arm.lines))));
        lemma_join(t, at, arm_tokens(arm), more);
        arms
    }
}

proof fn derive_block(t: Seq<TokenView>, at: int) -> (form: FormBlock)
    requires
        unmarked(t),
        0 <= at,
        block(t, at).1 is Ok,
    ensures
        stands(t, at, block_tokens(form)),
        block_tokens(form).len() > 0,
        block(t, at) == (at + block_tokens(form).len(), Ok::<BlockView, Seq<char>>(
            block_meant(form),
        )),
        block_grouped(form),
    decreases t.len() - at, 1int,
{
    reveal(block);
    reveal(block_items);
    lemma_single(t, at, TokenKindView::LBrace);
    lemma_skipped(t, at + 1);
    let first = newlines(t, at + 1);
    let lines = (first - (at + 1)) as nat;
    let none = Seq::<FormItem>::empty();
    assert(items_meant(none) =~= Seq::empty());
    let items = derive_items(t, first, none);
    let inner = items_tokens(items, 0);
    let last = seq![TokenKindView::RBrace];
    lemma_single(t, first + inner.len(), TokenKindView::RBrace);
    lemma_join(t, first, inner, last);
    lemma_join(t, at + 1, feeds(lines), inner + last);
    lemma_join(t, at, seq![TokenKindView::LBrace], feeds(lines) + (inner + last));
    FormBlock { lines, items }
}

proof fn derive_item(t: Seq<TokenView>, at: int, lines: nat) -> (item: FormItem)
    requires
        unmarked(t),
        0 <= at,
        block_item(t, at).1 is Ok,
    ensures
        item.lines == lines,
        stands(t, at, item_tokens(item)),
        item_tokens(item).len() > 0,
        block_item(t, at) == (at + item_tokens(item).len(), Ok::<BlockItemView, Seq<char>>(
            item_meant(item),
        )),
        item_grouped(item),
    decreases t.len() - at, 8int,
{
    lemma_item_parts(t, at);
    if let Some(name) = bound_name(t, at) {
        let expr = derive_expression(t, at + 2);
        let front = seq![TokenKindView::Ident(name), TokenKindView::Eq];
        lemma_double(t, at, TokenKindView::Ident(name), TokenKindView::Eq);
        lemma_join(t, at, front, form_tokens(expr));
        FormItem { name: Some(name), expr, lines }
    } else {
        let expr = derive_expression(t, at);
        FormItem { name: None, expr, lines }
    }
}

#[verifier::rlimit(30)]
proof fn derive_items(t: Seq<TokenView>, at: int, before: Seq<FormItem>) -> (items: Seq<FormItem>)
    requires
        unmarked(t),
        0 <= at <= t.len(),
        items_grouped(before),
        block_items(t, at, items_meant(before)).1 is Ok,
    ensures
        items.len() >= before.len(),
        items.take(before.len() as int) == before,
        items_grouped(items),
        stands(t, at, items_tokens(items, before.len() as int)),
        block_items(t, at, items_meant(before)) == (
            at + items_tokens(items, before.len() as int).len(),
            Ok::<Seq<BlockItemView>, Seq<char>>(items_meant(items)),
        ),
    decreases t.len() - at, 9int,
{
    lemma_items_parts(t, at, items_meant(before));
    let n = before.len() as int;
    if kind_at(t, at) == TokenKindView::RBrace {
        assert(before.take(n) =~= before);
        before
    } else {
        let end = block_item(t, at).0;
        let draft = derive_item(t, at, 0);
        lemma_skipped(t, end);
        let next = newlines(t, end);
        let item = derive_item(t, at, (next - end) as nat);
        let longer = before.push(item);
        assert(items_meant(longer) =~= items_meant(before).push(item_meant(item)));
        let items = derive_items(t, next, longer);
        assert(items[n] == item) by {
            assert(items.take(n + 1)[n] == longer[n]);
        }
        assert(items.take(n) =~= before) by {
            assert forall|i: int| 0 <= i < n implies items[i] == before[i] by {
                assert(items.take(n + 1)[i] == longer[i]);
            }
        }
        let more = items_tokens(items, n + 1);
        lemma_join(t, end, feeds(item.lines), more);
        lemma_join(t, at, item_tokens(item), feeds(item.lines) + more);
        items
    }
}

proof fn derive_more_names(t: Seq<TokenView>, at: int, before: Seq<Seq<char>>)
    requires
        0 <= at <= t.len(),
        more_identifiers(t, at, before).1 is Ok,
    ensures
        ({
            let names = more_identifiers(t, at, before).1->Ok_0;
            let n = before.len() as int;
            &&& names.len() >= n
            &&& names.take(n) == before
            &&& stands(t, at, more_params_tokens(names, n))
            &&& more_identifiers(t, at, before).0 == at + more_params_tokens(names, n).len()
        }),
    decreases t.len() - at,
{
    let n = before.len() as int;
    if kind_at(t, at) == TokenKindView::Comma {
        let name = kind_at(t, at + 1)->Ident_0;
        let longer = before.push(name);
        lemma_double(t, at, TokenKindView::Comma, TokenKindView::Ident(name));
        derive_more_names(t, at + 2, longer);
        let names = more_identifiers(t, at, before).1->Ok_0;
        assert(names[n] == name) by {
            assert(names.take(n + 1)[n] == longer[n]);
        }
        assert(names.take(n) =~= before) by {
            assert forall|i: int| 0 <= i < n implies names[i] == before[i] by {
                assert(names.take(n + 1)[i] == longer[i]);
            }
        }
        lemma_join(
            t,
            at,
            seq![TokenKindView::Comma, TokenKindView::Ident(name)],
            more_params_tokens(names, n + 1),
        );
    } else {
        assert(before.take(n) =~= before);
    }
}

/// Names in parentheses.
proof fn derive_names(t: Seq<TokenView>, at: int)
    requires
        0 <= at,
        kind_at(t, at) == TokenKindView::LParen,
        identifiers(t, at + 1).1 is Ok,
        kind_at(t, identifiers(t, at + 1).0) == TokenKindView::RParen,
    ensures
        ({
            let names = identifiers(t, at + 1).1->Ok_0;
            &&& stands(t, at, params_tokens(names))
            &&& identifiers(t, at + 1).0 + 1 == at + params_tokens(names).len()
        }),
{
    let (end, result) = identifiers(t, at + 1);
    let names = result->Ok_0;
    let open = seq![TokenKindView::LParen];
    let close = seq![TokenKindView::RParen];
    lemma_single(t, at, TokenKindView::LParen);
    lemma_single(t, end, TokenKindView::RParen);
    if kind_at(t, at + 1) == TokenKindView::RParen {
        assert(Seq::<TokenKindView>::empty() + close =~= close);
        lemma_join(t, at, open, close);
    } else {
        let name = kind_at(t, at + 1)->Ident_0;
        derive_more_names(t, at + 2, seq![name]);
        assert(names[0] == name) by {
            assert(names.take(1)[0] == seq![name][0]);
        }
        let more = more_params_tokens(names, 1);
        lemma_single(t, at + 1, TokenKindView::Ident(name));
        lemma_join(t, at + 1, seq![TokenKindView::Ident(name)], more);
        let inner = seq![TokenKindView::Ident(name)] + more;
        lemma_join(t, at + 1, inner, close);
        lemma_join(t, at, open, inner + close);
    }
}

proof fn derive_attribute(t: Seq<TokenView>, at: int, lines: nat) -> (form: FormAttribute)
    requires
        0 <= at,
        kind_at(t, at) == TokenKindView::Hash,
        attribute(t, at + 1).1 is Ok,
    ensures
        form.lines == lines,
        stands(t, at, attribute_tokens(form)),
        attribute_tokens(form).len() > 0,
        attribute(t, at + 1).0 == at + attribute_tokens(form).len(),
{
    let name = kind_at(t, at + 2)->Ident_0;
    let word = seq![TokenKindView::Ident(name)];
    let close = seq![TokenKindView::RBracket];
    lemma_single(t, at, TokenKindView::Hash);
    lemma_single(t, at + 1, TokenKindView::LBracket);
    lemma_single(t, at + 2, TokenKindView::Ident(name));
    let (last, _) = attribute_arguments(t, at + 3);
    lemma_single(t, last, TokenKindView::RBracket);
    let (args, tokens) = if kind_at(t, at + 3) == TokenKindView::LParen {
        derive_names(t, at + 3);
        let names = identifiers(t, at + 4).1->Ok_0;
        (Some(names), params_tokens(names))
    } else {
        (None, Seq::empty())
    };
    lemma_join(t, at + 3, tokens, close);
    lemma_join(t, at + 2, word, tokens + close);
    lemma_join(t, at + 1, seq![TokenKindView::LBracket], word + (tokens + close));
    lemma_join(
        t,
        at,
        seq![TokenKindView::Hash],
        seq![TokenKindView::LBracket] + (word + (tokens + close)),
    );
    FormAttribute { name, args, lines }
}

/// Newlines, and attributes with newlines behind each.
proof fn derive_attributes(t: Seq<TokenView>, at: int) -> (list: Seq<FormAttribute>)
    requires
        0 <= at <= t.len(),
        attributes(t, at).1 is Ok,
    ensures
        at <= newlines(t, at) <= t.len(),
        stands(t, newlines(t, at), attributes_tokens(list, 0)),
        attributes(t, at).0 == newlines(t, at) + attributes_tokens(list, 0).len(),
    decreases t.len() - at,
{
    reveal(attributes);
    lemma_skipped(t, at);
    let start = newlines(t, at);
    if kind_at(t, start) == TokenKindView::Hash {
        let next = attribute(t, start + 1).0;
        let draft = derive_attribute(t, start, 0);
        lemma_skipped(t, next);
        let first = derive_attribute(t, start, (newlines(t, next) - next) as nat);
        let rest = derive_attributes(t, next);
        let list = seq![first] + rest;
        lemma_attributes_after(list, rest, 0);
        assert(list[0] == first);
        lemma_join(t, next, feeds(first.lines), attributes_tokens(rest, 0));
        lemma_join(
            t,
            start,
            attribute_tokens(first),
            feeds(first.lines) + attributes_tokens(rest, 0),
        );
        list
    } else {
        Seq::empty()
    }
}

proof fn lemma_attributes_after(list: Seq<FormAttribute>, rest: Seq<FormAttribute>, i: int)
    requires
        list.len() == rest.len() + 1,
        forall|k: int| 0 <= k < rest.len() ==> #[trigger] rest[k] == list[k + 1],
        0 <= i <= rest.len(),
    ensures
        attributes_tokens(list, i + 1) == attributes_tokens(rest, i),
    decreases rest.len() - i,
{
    if i < rest.len() {
        assert(rest[i] == list[i + 1]);
        lemma_attributes_after(list, rest, i + 1);
    }
}

proof fn derive_ret(t: Seq<TokenView>, at: int) -> (ret: Option<(PrimType, bool)>)
    requires
        0 <= at <= t.len(),
        annotation(t, at).1 is Ok,
    ensures
        stands(t, at, ret_tokens(ret)),
        annotation(t, at) == (at + ret_tokens(ret).len(), Ok::<Option<PrimType>, Seq<char>>(
            match ret {
                Some((ty, _)) => Some(ty),
                None => None,
            },
        )),
{
    if kind_at(t, at) == TokenKindView::Arrow {
        let name = kind_at(t, at + 1)->Ident_0;
        let ty = type_named(name)->Some_0;
        let small = name == "i32"@ || name == "bool"@ || name == "unit"@;
        reveal_strlit("I32");
        reveal_strlit("i32");
        reveal_strlit("Bool");
        reveal_strlit("bool");
        reveal_strlit("Unit");
        reveal_strlit("unit");
        assert("I32"@.len() == 3 && "i32"@.len() == 3 && "I32"@[0] == 'I' && "i32"@[0] == 'i');
        assert("Bool"@.len() == 4 && "bool"@.len() == 4);
        assert("Unit"@.len() == 4 && "unit"@.len() == 4);
        assert("Bool"@[0] == 'B' && "bool"@[0] == 'b' && "Unit"@[0] == 'U' && "unit"@[0] == 'u');
        assert(type_word(ty, small) == name);
        lemma_double(t, at, TokenKindView::Arrow, TokenKindView::Ident(name));
        Some((ty, small))
    } else {
        None
    }
}

/// A function behind its attributes.
proof fn derive_function(
    t: Seq<TokenView>,
    at: int,
    lines: nat,
    list: Seq<FormAttribute>,
) -> (form: FormFunction)
    requires
        unmarked(t),
        0 <= at,
        function(t, at).1 is Ok,
    ensures
        form.lines == lines,
        form.attributes == list,
        stands(t, at, header_tokens(form)),
        header_tokens(form).len() > 0,
        function(t, at) == (at + header_tokens(form).len(), Ok::<FunctionView, Seq<char>>(
            function_meant(form),
        )),
        block_grouped(form.body),
{
    reveal(function);
    lemma_single(t, at, TokenKindView::Fn);
    assert(kind_at(t, at + 1) is Ident);
    assert(t[at + 1].kind == kind_at(t, at + 1));
    derive_name(t, at + 1);
    let (open, found) = function_name(t, at + 1);
    let name = found->Ok_0;
    derive_names(t, open);
    let (close, names) = identifiers(t, open + 1);
    let params = names->Ok_0;
    let ret = derive_ret(t, close + 1);
    let start = annotation(t, close + 1).0;
    let body = derive_block(t, start);
    let form = FormFunction { lines, attributes: list, name, params, ret, body };
    lemma_join(t, close + 1, ret_tokens(ret), block_tokens(body));
    lemma_join(t, open, params_tokens(params), ret_tokens(ret) + block_tokens(body));
    let rest = params_tokens(params) + (ret_tokens(ret) + block_tokens(body));
    lemma_join(t, at + 1, name_tokens(name), rest);
    lemma_join(t, at, seq![TokenKindView::Fn], name_tokens(name) + rest);
    form
}

/// Functions up to the end, with newlines before each and at the end.
#[verifier::rlimit(30)]
proof fn derive_functions(
    t: Seq<TokenView>,
    at: int,
    start: int,
    before: Seq<FormFunction>,
) -> (form: FormProgram)
    requires
        unmarked(t),
        0 <= at <= t.len(),
        start == newlines(t, at),
        t.len() > 0,
        t.last().kind == TokenKindView::Eof,
        forall|i: int| 0 <= i < t.len() - 1 ==> (#[trigger] t[i]).kind != TokenKindView::Eof,
        at < t.len(),
        forall|i: int| 0 <= i < before.len() ==> block_grouped((#[trigger] before[i]).body),
        declarations(
            t,
            start,
            before.map_values(|function: FormFunction| function_meant(function)),
        ).1 is Ok,
    ensures
        form.functions.len() >= before.len(),
        form.functions.take(before.len() as int) == before,
        forall|i: int|
            0 <= i < form.functions.len() ==> block_grouped((#[trigger] form.functions[i]).body),
        stands(t, at, functions_tokens(form, before.len() as int)),
        t.len() == at + functions_tokens(form, before.len() as int).len(),
        declarations(
            t,
            start,
            before.map_values(|function: FormFunction| function_meant(function)),
        ).1 == Ok::<Seq<FunctionView>, Seq<char>>(program_meant(form).functions),
    decreases t.len() - at,
{
    reveal(declarations);
    lemma_skipped(t, at);
    let lines = (start - at) as nat;
    let n = before.len() as int;
    let shapes = before.map_values(|function: FormFunction| function_meant(function));
    if kind_at(t, start) == TokenKindView::Eof {
        let form = FormProgram { functions: before, lines };
        assert(before.take(n) =~= before);
        assert(start == t.len() - 1) by {
            lemma_last_newline(t, at);
        }
        assert(stands(t, start, seq![TokenKindView::Eof]));
        lemma_join(t, at, feeds(lines), seq![TokenKindView::Eof]);
        form
    } else {
        let (next, _) = attributes(t, start);
        lemma_newlines(t, at);
        let list = derive_attributes(t, start);
        assert(newlines(t, start) == start);
        let function = derive_function(t, next, lines, list);
        let end = next + header_tokens(function).len();
        lemma_join(t, start, attributes_tokens(list, 0), header_tokens(function));
        let longer = before.push(function);
        assert(longer.map_values(|function: FormFunction| function_meant(function))
            =~= shapes.push(function_meant(function)));
        lemma_last_brace(t, next, function);
        lemma_skipped(t, end);
        let form = derive_functions(t, end, newlines(t, end), longer);
        assert(form.functions[n] == function) by {
            assert(form.functions.take(n + 1)[n] == longer[n]);
        }
        assert(form.functions.take(n) =~= before) by {
            assert forall|i: int| 0 <= i < n implies form.functions[i] == before[i] by {
                assert(form.functions.take(n + 1)[i] == longer[i]);
            }
        }
        let rest = functions_tokens(form, n + 1);
        lemma_join(t, start, function_tokens(function), rest);
        lemma_join(t, at, feeds(lines), function_tokens(function) + rest);
        form
    }
}

/// Newlines do not run past the mark of the end.
proof fn lemma_last_newline(t: Seq<TokenView>, at: int)
    requires
        0 <= at < t.len(),
        t.last().kind == TokenKindView::Eof,
        forall|i: int| 0 <= i < t.len() - 1 ==> (#[trigger] t[i]).kind != TokenKindView::Eof,
    ensures
        newlines(t, at) < t.len(),
        kind_at(t, newlines(t, at)) == TokenKindView::Eof ==> newlines(t, at) == t.len() - 1,
    decreases t.len() - at,
{
    if kind_at(t, at) == TokenKindView::Newline {
        assert(at < t.len() - 1);
        lemma_last_newline(t, at + 1);
    }
}

/// A function ends before the mark of the end.
proof fn lemma_last_brace(t: Seq<TokenView>, at: int, function: FormFunction)
    requires
        stands(t, at, header_tokens(function)),
        t.len() > 0,
        t.last().kind == TokenKindView::Eof,
    ensures
        at + header_tokens(function).len() < t.len(),
{
    let tokens = header_tokens(function);
    let inner = block_tokens(function.body);
    assert(inner.last() == TokenKindView::RBrace);
    assert(tokens.last() == TokenKindView::RBrace);
    let last = at + tokens.len() - 1;
    assert(t[last].kind == tokens[tokens.len() - 1]);
}

/// What is accepted as a program is written as one: the tokens are those of some way to write the
/// program that was read.
pub proof fn law_derived(t: Seq<TokenView>) -> (form: FormProgram)
    requires
        unmarked(t),
        t.len() > 0,
        t.last().kind == TokenKindView::Eof,
        forall|i: int| 0 <= i < t.len() - 1 ==> (#[trigger] t[i]).kind != TokenKindView::Eof,
        program(t, 0).1 is Ok,
    ensures
        kinds(t) == functions_tokens(form, 0),
        program(t, 0).1 == Ok::<ProgramView, Seq<char>>(program_meant(form)),
        forall|i: int|
            0 <= i < form.functions.len() ==> block_grouped((#[trigger] form.functions[i]).body),
{
    let none = Seq::<FormFunction>::empty();
    assert(none.map_values(|function: FormFunction| function_meant(function)) =~= Seq::empty());
    let form = derive_functions(t, 0, newlines(t, 0), none);
    let tokens = functions_tokens(form, 0);
    assert forall|i: int| 0 <= i < t.len() implies kinds(t)[i] == tokens[i] by {
        assert(t[i].kind == tokens[i]);
    }
    assert(kinds(t) =~= tokens);
    form
}

} // verus!
