//! Programs as they may be written: with parentheses and newlines wherever they are allowed, with
//! attributes, and with either name of a type.
use vstd::prelude::*;

use crate::seed::ast::{
    BinaryOp, BlockItemView, BlockView, ExprView, FunctionView, MatchArmView, Pattern, PrimType,
    ProgramView,
};
use crate::seed::grammar::{
    annotation, attribute, attributes, block, block_item, block_items, call_arguments, declaration,
    declarations, equality, expression, function, kind_at, lemma_primary, match_arms,
    match_expression, more_arguments, more_postfix, named, newlines, parenthesized, primary,
    program, type_named,
};
use crate::seed::lexer::{TokenKindView, TokenView};
use crate::seed::reading::{
    lemma_arguments_parts, lemma_arm_parts, lemma_binding_parts, lemma_expression_item, lemma_head,
    lemma_in_parentheses, lemma_lowered, lemma_match_parts, lemma_name, lemma_no_arguments,
    lemma_one, lemma_operator, lemma_params, lemma_pattern, lemma_primary_read, lemma_split,
    lemma_stopped, lemma_two, read_at, read_on, stands, starts_expression, starts_well, stops,
};
use crate::seed::writing::{
    bool_kind, kinds, name_tokens, op_kind, op_level, params_tokens, pattern_tokens,
};
use crate::text::ends_with_bang;

verus! {

/// An expression as it is written.
pub enum Form {
    Int(i32),
    Bool(bool),
    Unit,
    Var(Seq<char>),
    Paren(Box<Form>),
    Call { name: Seq<char>, args: Seq<Form> },
    Method { receiver: Box<Form>, name: Seq<char>, args: Seq<Form> },
    Binary { op: BinaryOp, left: Box<Form>, right: Box<Form> },
    Match { scrutinee: Box<Form>, lines: nat, arms: Seq<FormArm> },
    Block(FormBlock),
}

/// An arm, and the number of newlines behind it.
pub struct FormArm {
    pub pattern: Pattern,
    pub expr: Form,
    pub lines: nat,
}

/// A block, with the number of newlines behind its opening brace.
pub struct FormBlock {
    pub lines: nat,
    pub items: Seq<FormItem>,
}

/// A binding of a name, or an expression, and the number of newlines behind it.
pub struct FormItem {
    pub name: Option<Seq<char>>,
    pub expr: Form,
    pub lines: nat,
}

/// The expression that is written.
pub open spec fn meant(form: Form) -> ExprView
    decreases form, 0int,
{
    match form {
        Form::Int(value) => ExprView::Int(value),
        Form::Bool(value) => ExprView::Bool(value),
        Form::Unit => ExprView::Unit,
        Form::Var(name) => ExprView::Var(name),
        Form::Paren(inner) => meant(*inner),
        Form::Call { name, args } => ExprView::Call { name, args: all_meant(args) },
        Form::Method { receiver, name, args } => ExprView::MethodCall {
            receiver: Box::new(meant(*receiver)),
            name,
            args: all_meant(args),
        },
        Form::Binary { op, left, right } => ExprView::Binary {
            op,
            left: Box::new(meant(*left)),
            right: Box::new(meant(*right)),
        },
        Form::Match { scrutinee, arms, .. } => ExprView::Match {
            scrutinee: Box::new(meant(*scrutinee)),
            arms: arms_meant(arms),
        },
        Form::Block(block) => ExprView::Block(block_meant(block)),
    }
}

pub open spec fn all_meant(list: Seq<Form>) -> Seq<ExprView>
    decreases list, 0int,
{
    Seq::new(
        list.len(),
        |i: int|
            if 0 <= i < list.len() {
                meant(list[i])
            } else {
                arbitrary()
            },
    )
}

pub open spec fn arm_meant(arm: FormArm) -> MatchArmView
    decreases arm, 0int,
{
    MatchArmView { pattern: arm.pattern, expr: meant(arm.expr) }
}

pub open spec fn arms_meant(arms: Seq<FormArm>) -> Seq<MatchArmView>
    decreases arms, 0int,
{
    Seq::new(
        arms.len(),
        |i: int|
            if 0 <= i < arms.len() {
                arm_meant(arms[i])
            } else {
                arbitrary()
            },
    )
}

pub open spec fn block_meant(block: FormBlock) -> BlockView
    decreases block, 0int,
{
    BlockView { items: items_meant(block.items) }
}

pub open spec fn item_meant(item: FormItem) -> BlockItemView
    decreases item, 0int,
{
    match item.name {
        Some(name) => BlockItemView::Binding { name, expr: meant(item.expr) },
        None => BlockItemView::Expr(meant(item.expr)),
    }
}

pub open spec fn items_meant(items: Seq<FormItem>) -> Seq<BlockItemView>
    decreases items, 0int,
{
    Seq::new(
        items.len(),
        |i: int|
            if 0 <= i < items.len() {
                item_meant(items[i])
            } else {
                arbitrary()
            },
    )
}

/// As many newlines.
pub open spec fn feeds(count: nat) -> Seq<TokenKindView> {
    Seq::new(count, |i: int| TokenKindView::Newline)
}

pub open spec fn form_tokens(form: Form) -> Seq<TokenKindView>
    decreases form, 0int,
{
    match form {
        Form::Int(value) => seq![TokenKindView::Int(value)],
        Form::Bool(value) => seq![bool_kind(value)],
        Form::Unit => seq![TokenKindView::LParen, TokenKindView::RParen],
        Form::Var(name) => seq![TokenKindView::Ident(name)],
        Form::Paren(inner) => seq![TokenKindView::LParen] + (form_tokens(*inner) + seq![
            TokenKindView::RParen,
        ]),
        Form::Call { name, args } => name_tokens(name) + args_tokens(args),
        Form::Method { receiver, name, args } => form_tokens(*receiver) + (seq![
            TokenKindView::Dot,
            TokenKindView::Ident(name),
        ] + args_tokens(args)),
        Form::Binary { op, left, right } => form_tokens(*left) + (seq![op_kind(op)] + form_tokens(
            *right,
        )),
        Form::Match { scrutinee, lines, arms } => seq![TokenKindView::Match] + (form_tokens(
            *scrutinee,
        ) + (seq![TokenKindView::LBrace] + (feeds(lines) + (arms_tokens(arms, 0) + seq![
            TokenKindView::RBrace,
        ])))),
        Form::Block(block) => block_tokens(block),
    }
}

/// Arguments in parentheses.
pub open spec fn args_tokens(args: Seq<Form>) -> Seq<TokenKindView>
    decreases args, args.len() + 1,
{
    seq![TokenKindView::LParen] + (if args.len() == 0 {
        Seq::empty()
    } else {
        form_tokens(args[0]) + more_args_tokens(args, 1)
    } + seq![TokenKindView::RParen])
}

/// The arguments from `i` on, each after a comma.
pub open spec fn more_args_tokens(args: Seq<Form>, i: int) -> Seq<TokenKindView>
    decreases args, args.len() - i,
{
    if 0 <= i < args.len() {
        seq![TokenKindView::Comma] + (form_tokens(args[i]) + more_args_tokens(args, i + 1))
    } else {
        Seq::empty()
    }
}

pub open spec fn arm_tokens(arm: FormArm) -> Seq<TokenKindView>
    decreases arm, 0int,
{
    pattern_tokens(arm.pattern) + (seq![TokenKindView::Arrow] + (form_tokens(arm.expr) + feeds(
        arm.lines,
    )))
}

/// The arms from `i` on.
pub open spec fn arms_tokens(arms: Seq<FormArm>, i: int) -> Seq<TokenKindView>
    decreases arms, arms.len() - i,
{
    if 0 <= i < arms.len() {
        arm_tokens(arms[i]) + arms_tokens(arms, i + 1)
    } else {
        Seq::empty()
    }
}

pub open spec fn block_tokens(block: FormBlock) -> Seq<TokenKindView>
    decreases block, 0int,
{
    seq![TokenKindView::LBrace] + (feeds(block.lines) + (items_tokens(block.items, 0) + seq![
        TokenKindView::RBrace,
    ]))
}

pub open spec fn item_tokens(item: FormItem) -> Seq<TokenKindView>
    decreases item, 0int,
{
    match item.name {
        Some(name) => seq![TokenKindView::Ident(name), TokenKindView::Eq] + form_tokens(item.expr),
        None => form_tokens(item.expr),
    }
}

/// The items from `i` on.
pub open spec fn items_tokens(items: Seq<FormItem>, i: int) -> Seq<TokenKindView>
    decreases items, items.len() - i,
{
    if 0 <= i < items.len() {
        item_tokens(items[i]) + (feeds(items[i].lines) + items_tokens(items, i + 1))
    } else {
        Seq::empty()
    }
}

/// How tightly a form binds: comparisons least, then sums and differences, then products.
pub open spec fn form_level(form: Form) -> int {
    match form {
        Form::Binary { op, .. } => op_level(op),
        _ => 3,
    }
}

/// The form can stand as it is: operands bind tightly enough, a variable has no mark, and where no
/// newline parts two arms or two items, the second cannot be read on behind the first.
pub open spec fn proper(form: Form) -> bool
    decreases form, 0int,
{
    match form {
        Form::Int(_) | Form::Bool(_) | Form::Unit => true,
        Form::Var(name) => !ends_with_bang(name),
        Form::Paren(inner) => proper(*inner),
        Form::Call { args, .. } => all_proper(args, 0),
        Form::Method { receiver, args, .. } => proper(*receiver) && form_level(*receiver) == 3
            && all_proper(args, 0),
        Form::Binary { op, left, right } => proper(*left) && proper(*right) && form_level(*left)
            >= op_level(op) && form_level(*right) > op_level(op),
        Form::Match { scrutinee, arms, .. } => proper(*scrutinee) && arms_proper(arms, 0),
        Form::Block(block) => block_proper(block),
    }
}

pub open spec fn all_proper(list: Seq<Form>, i: int) -> bool
    decreases list, list.len() - i,
{
    0 <= i < list.len() ==> proper(list[i]) && all_proper(list, i + 1)
}

pub open spec fn arm_proper(arm: FormArm) -> bool
    decreases arm, 0int,
{
    proper(arm.expr)
}

pub open spec fn arms_proper(arms: Seq<FormArm>, i: int) -> bool
    decreases arms, arms.len() - i,
{
    0 <= i < arms.len() ==> {
        &&& arm_proper(arms[i])
        &&& arms[i].lines > 0 || i + 1 == arms.len() || stops(
            pattern_tokens(arms[i + 1].pattern)[0],
            0,
        )
        &&& arms_proper(arms, i + 1)
    }
}

pub open spec fn block_proper(block: FormBlock) -> bool
    decreases block, 0int,
{
    items_proper(block.items, 0)
}

pub open spec fn item_proper(item: FormItem) -> bool
    decreases item, 0int,
{
    proper(item.expr)
}

pub open spec fn items_proper(items: Seq<FormItem>, i: int) -> bool
    decreases items, items.len() - i,
{
    0 <= i < items.len() ==> {
        &&& item_proper(items[i])
        &&& items[i].lines > 0 || i + 1 == items.len() || stops(item_tokens(items[i + 1])[0], 0)
        &&& items_proper(items, i + 1)
    }
}

/// Newlines are skipped.
proof fn lemma_feeds(t: Seq<TokenView>, at: int, count: nat)
    requires
        stands(t, at, feeds(count)),
    ensures
        newlines(t, at) == newlines(t, at + count),
        count > 0 ==> kind_at(t, at) == TokenKindView::Newline,
    decreases count,
{
    if count > 0 {
        let rest = feeds((count - 1) as nat);
        assert(feeds(count) =~= seq![TokenKindView::Newline] + rest);
        lemma_head(t, at, TokenKindView::Newline, rest);
        lemma_feeds(t, at + 1, (count - 1) as nat);
    }
}

proof fn lemma_form_start(form: Form)
    ensures
        starts_well(form_tokens(form)),
    decreases form,
{
    match form {
        Form::Method { receiver, .. } => {
            let front = form_tokens(*receiver);
            lemma_form_start(*receiver);
            assert(form_tokens(form)[0] == front[0]);
            assert(form_tokens(form)[1] == if front.len() > 1 {
                front[1]
            } else {
                TokenKindView::Dot
            });
        },
        Form::Binary { op, left, .. } => {
            let front = form_tokens(*left);
            lemma_form_start(*left);
            assert(form_tokens(form)[0] == front[0]);
            assert(form_tokens(form)[1] == if front.len() > 1 {
                front[1]
            } else {
                op_kind(op)
            });
        },
        Form::Block(block) => {
            assert(form_tokens(form) == block_tokens(block));
            assert(block_tokens(block)[0] == TokenKindView::LBrace);
        },
        Form::Call { name, args } => {
            let front = name_tokens(name);
            assert(args_tokens(args)[0] == TokenKindView::LParen);
            assert(form_tokens(form)[0] == front[0]);
            assert(form_tokens(form)[1] == if front.len() > 1 {
                front[1]
            } else {
                TokenKindView::LParen
            });
        },
        Form::Paren(_) => assert(form_tokens(form)[0] == TokenKindView::LParen),
        Form::Match { .. } => assert(form_tokens(form)[0] == TokenKindView::Match),
        _ => {},
    }
}

/// A form is read as what it means, and what follows is read on behind it.
proof fn lemma_form(form: Form, least: int, t: Seq<TokenView>, at: int)
    requires
        0 <= least <= form_level(form),
        proper(form),
        stands(t, at, form_tokens(form)),
        stops(kind_at(t, at + form_tokens(form).len()), least + 1),
    ensures
        read_at(t, at, least) == read_on(t, at + form_tokens(form).len(), least, meant(form)),
    decreases form, 5 - least,
{
    let end = at + form_tokens(form).len();
    lemma_form_start(form);
    if least < form_level(form) {
        lemma_form(form, least + 1, t, at);
        lemma_stopped(t, end, least + 1, meant(form));
        lemma_lowered(t, at, end, least, meant(form));
    } else {
        match form {
            Form::Binary { op, left, right } => lemma_binary(form, op, *left, *right, t, at),
            Form::Method { receiver, name, args } => lemma_method(
                form,
                *receiver,
                name,
                args,
                t,
                at,
            ),
            _ => {
                lemma_primary_form(form, t, at);
                lemma_primary_read(t, at, end, 3, meant(form));
            },
        }
    }
}

/// A form that is followed by something that cannot continue it.
proof fn lemma_expression(form: Form, t: Seq<TokenView>, at: int)
    requires
        proper(form),
        stands(t, at, form_tokens(form)),
        stops(kind_at(t, at + form_tokens(form).len()), 0),
    ensures
        expression(t, at) == (at + form_tokens(form).len(), Ok::<ExprView, Seq<char>>(meant(form))),
    decreases form, 9int,
{
    lemma_form(form, 0, t, at);
    lemma_stopped(t, at + form_tokens(form).len(), 0, meant(form));
    reveal(expression);
    reveal(equality);
}

proof fn lemma_binary(
    form: Form,
    op: BinaryOp,
    left: Form,
    right: Form,
    t: Seq<TokenView>,
    at: int,
)
    requires
        form == (Form::Binary { op, left: Box::new(left), right: Box::new(right) }),
        proper(form),
        stands(t, at, form_tokens(form)),
        stops(kind_at(t, at + form_tokens(form).len()), op_level(op) + 1),
    ensures
        read_at(t, at, op_level(op)) == read_on(
            t,
            at + form_tokens(form).len(),
            op_level(op),
            meant(form),
        ),
    decreases form, 1int,
{
    let least = op_level(op);
    let end = at + form_tokens(form).len();
    let front = form_tokens(left);
    let back = form_tokens(right);
    let middle = at + front.len();
    lemma_split(t, at, front, seq![op_kind(op)] + back);
    lemma_head(t, middle, op_kind(op), back);
    lemma_form(left, least, t, at);
    lemma_form(right, least + 1, t, middle + 1);
    lemma_stopped(t, end, least + 1, meant(right));
    lemma_operator(t, middle, end, op, meant(left), meant(right));
}

proof fn lemma_method(
    form: Form,
    receiver: Form,
    name: Seq<char>,
    args: Seq<Form>,
    t: Seq<TokenView>,
    at: int,
)
    requires
        form == (Form::Method { receiver: Box::new(receiver), name, args }),
        proper(form),
        stands(t, at, form_tokens(form)),
    ensures
        read_at(t, at, 3) == read_on(t, at + form_tokens(form).len(), 3, meant(form)),
    decreases form, 1int,
{
    let front = form_tokens(receiver);
    let middle = at + front.len();
    let called = seq![TokenKindView::Dot, TokenKindView::Ident(name)];
    lemma_split(t, at, front, called + args_tokens(args));
    lemma_split(t, middle, called, args_tokens(args));
    lemma_two(t, middle, TokenKindView::Dot, TokenKindView::Ident(name));
    lemma_form(receiver, 3, t, at);
    lemma_args(args, t, middle + 2);
    reveal(more_postfix);
    reveal(call_arguments);
}

proof fn lemma_primary_form(form: Form, t: Seq<TokenView>, at: int)
    requires
        !(form is Binary),
        !(form is Method),
        proper(form),
        stands(t, at, form_tokens(form)),
        stops(kind_at(t, at + form_tokens(form).len()), 4),
    ensures
        primary(t, at) == (at + form_tokens(form).len(), Ok::<ExprView, Seq<char>>(meant(form))),
    decreases form, 1int,
{
    lemma_primary(t, at);
    match form {
        Form::Int(value) => lemma_one(t, at, TokenKindView::Int(value)),
        Form::Bool(value) => lemma_one(t, at, bool_kind(value)),
        Form::Unit => {
            lemma_two(t, at, TokenKindView::LParen, TokenKindView::RParen);
            reveal(parenthesized);
        },
        Form::Var(name) => {
            lemma_one(t, at, TokenKindView::Ident(name));
            reveal(named);
        },
        Form::Paren(inner) => lemma_paren(*inner, t, at),
        Form::Call { name, args } => {
            let front = name_tokens(name);
            lemma_split(t, at, front, args_tokens(args));
            lemma_args(args, t, at + front.len());
            lemma_name(name, t, at);
            reveal(named);
            reveal(call_arguments);
        },
        Form::Match { scrutinee, lines, arms } => lemma_match(
            form,
            *scrutinee,
            lines,
            arms,
            t,
            at,
        ),
        Form::Block(inner) => {
            assert(form_tokens(form) == block_tokens(inner));
            lemma_block(inner, t, at);
        },
        _ => {},
    }
}

proof fn lemma_paren(inner: Form, t: Seq<TokenView>, at: int)
    requires
        proper(inner),
        stands(
            t,
            at,
            seq![TokenKindView::LParen] + (form_tokens(inner) + seq![TokenKindView::RParen]),
        ),
    ensures
        primary(t, at) == (at + form_tokens(inner).len() + 2, Ok::<ExprView, Seq<char>>(
            meant(inner),
        )),
    decreases inner, 9int,
{
    let tokens = form_tokens(inner);
    let close = at + 1 + tokens.len();
    lemma_head(t, at, TokenKindView::LParen, tokens + seq![TokenKindView::RParen]);
    lemma_split(t, at + 1, tokens, seq![TokenKindView::RParen]);
    lemma_one(t, close, TokenKindView::RParen);
    lemma_form(inner, 0, t, at + 1);
    lemma_stopped(t, close, 0, meant(inner));
    lemma_form_start(inner);
    assert(t[at + 1].kind == tokens[0]);
    lemma_in_parentheses(t, at, close, meant(inner));
}

proof fn lemma_match(
    form: Form,
    scrutinee: Form,
    lines: nat,
    arms: Seq<FormArm>,
    t: Seq<TokenView>,
    at: int,
)
    requires
        form == (Form::Match { scrutinee: Box::new(scrutinee), lines, arms }),
        proper(form),
        stands(t, at, form_tokens(form)),
    ensures
        kind_at(t, at) == TokenKindView::Match,
        match_expression(t, at) == (at + form_tokens(form).len(), Ok::<ExprView, Seq<char>>(
            meant(form),
        )),
    decreases form, 0int,
{
    let front = form_tokens(scrutinee);
    let open = at + 1 + front.len();
    let inner = arms_tokens(arms, 0);
    let close = seq![TokenKindView::RBrace];
    let spaced = feeds(lines) + (inner + close);
    let braced = seq![TokenKindView::LBrace] + spaced;
    let first = open + 1 + lines;
    lemma_head(t, at, TokenKindView::Match, front + braced);
    lemma_split(t, at + 1, front, braced);
    lemma_head(t, open, TokenKindView::LBrace, spaced);
    lemma_split(t, open + 1, feeds(lines), inner + close);
    lemma_feeds(t, open + 1, lines);
    lemma_split(t, first, inner, close);
    lemma_one(t, first + inner.len(), TokenKindView::RBrace);
    lemma_expression(scrutinee, t, at + 1);
    lemma_form_start(scrutinee);
    lemma_arms(arms, 0, t, first);
    assert(arms_meant(arms).take(0) =~= Seq::empty());
    lemma_match_parts(t, at, open, first + inner.len(), meant(scrutinee), arms_meant(arms));
}

proof fn lemma_arms(arms: Seq<FormArm>, i: int, t: Seq<TokenView>, at: int)
    requires
        0 <= i <= arms.len(),
        arms_proper(arms, i),
        stands(t, at, arms_tokens(arms, i)),
        kind_at(t, at + arms_tokens(arms, i).len()) == TokenKindView::RBrace,
    ensures
        newlines(t, at) == at,
        i < arms.len() ==> kind_at(t, at) == pattern_tokens(arms[i].pattern)[0],
        match_arms(t, at, arms_meant(arms).take(i)) == (at + arms_tokens(arms, i).len(), Ok::<
            Seq<MatchArmView>,
            Seq<char>,
        >(arms_meant(arms))),
    decreases arms, arms.len() - i,
{
    let all = arms_meant(arms);
    if i < arms.len() {
        let arm = arms[i];
        let front = pattern_tokens(arm.pattern);
        let body = form_tokens(arm.expr);
        let rest = arms_tokens(arms, i + 1);
        let lines = feeds(arm.lines) + rest;
        let arrow = at + front.len();
        let end = arrow + 1 + body.len();
        assert(arm_tokens(arm) == front + (seq![TokenKindView::Arrow] + (body + feeds(arm.lines))));
        assert(arms_tokens(arms, i) == arm_tokens(arm) + rest);
        assert(arms_tokens(arms, i) =~= front + (seq![TokenKindView::Arrow] + (body + lines)));
        lemma_split(t, at, front, seq![TokenKindView::Arrow] + (body + lines));
        lemma_pattern(arm.pattern, t, at);
        assert(t[at].kind == front[0]);
        lemma_head(t, arrow, TokenKindView::Arrow, body + lines);
        lemma_split(t, arrow + 1, body, lines);
        lemma_split(t, end, feeds(arm.lines), rest);
        lemma_feeds(t, end, arm.lines);
        lemma_arms(arms, i + 1, t, end + arm.lines);
        lemma_arm_expression(arm, t, arrow + 1);
        assert(all.take(i).push(arm_meant(arm)) =~= all.take(i + 1));
        lemma_arm_parts(t, at, arrow, end, arm_meant(arm), all.take(i));
    } else {
        assert(all.take(i) =~= all);
        reveal(match_arms);
    }
}

proof fn lemma_arm_expression(arm: FormArm, t: Seq<TokenView>, at: int)
    requires
        arm_proper(arm),
        stands(t, at, form_tokens(arm.expr)),
        stops(kind_at(t, at + form_tokens(arm.expr).len()), 0),
    ensures
        expression(t, at) == (at + form_tokens(arm.expr).len(), Ok::<ExprView, Seq<char>>(
            meant(arm.expr),
        )),
    decreases arm, 0int,
{
    lemma_expression(arm.expr, t, at);
}

proof fn lemma_block(inner: FormBlock, t: Seq<TokenView>, at: int)
    requires
        block_proper(inner),
        stands(t, at, block_tokens(inner)),
    ensures
        kind_at(t, at) == TokenKindView::LBrace,
        block(t, at) == (at + block_tokens(inner).len(), Ok::<BlockView, Seq<char>>(
            block_meant(inner),
        )),
    decreases inner, 0int,
{
    let items = items_tokens(inner.items, 0);
    let close = seq![TokenKindView::RBrace];
    let first = at + 1 + inner.lines;
    lemma_head(t, at, TokenKindView::LBrace, feeds(inner.lines) + (items + close));
    lemma_split(t, at + 1, feeds(inner.lines), items + close);
    lemma_feeds(t, at + 1, inner.lines);
    lemma_split(t, first, items, close);
    lemma_one(t, first + items.len(), TokenKindView::RBrace);
    lemma_items(inner.items, 0, t, first);
    assert(items_meant(inner.items).take(0) =~= Seq::empty());
    reveal(block);
    reveal(block_items);
}

/// One item that is followed by something that cannot continue it.
proof fn lemma_item(item: FormItem, t: Seq<TokenView>, at: int)
    requires
        item_proper(item),
        stands(t, at, item_tokens(item)),
        stops(kind_at(t, at + item_tokens(item).len()), 0),
        kind_at(t, at + item_tokens(item).len()) != TokenKindView::Eq,
    ensures
        item_tokens(item).len() > 0,
        block_item(t, at) == (at + item_tokens(item).len(), Ok::<BlockItemView, Seq<char>>(
            item_meant(item),
        )),
        starts_expression(kind_at(t, at)),
    decreases item, 0int,
{
    match item.name {
        Some(name) => {
            let front = seq![TokenKindView::Ident(name), TokenKindView::Eq];
            lemma_split(t, at, front, form_tokens(item.expr));
            lemma_two(t, at, TokenKindView::Ident(name), TokenKindView::Eq);
            lemma_expression(item.expr, t, at + 2);
            lemma_binding_parts(t, at, name);
        },
        None => {
            let body = form_tokens(item.expr);
            lemma_form_start(item.expr);
            assert(t[at].kind == body[0]);
            if body.len() > 1 {
                assert(t[at + 1].kind == body[1]);
            }
            lemma_expression(item.expr, t, at);
            lemma_expression_item(t, at);
        },
    }
}

proof fn lemma_items(items: Seq<FormItem>, i: int, t: Seq<TokenView>, at: int)
    requires
        0 <= i <= items.len(),
        items_proper(items, i),
        stands(t, at, items_tokens(items, i)),
        kind_at(t, at + items_tokens(items, i).len()) == TokenKindView::RBrace,
    ensures
        newlines(t, at) == at,
        i < items.len() ==> kind_at(t, at) == item_tokens(items[i])[0] && starts_expression(
            kind_at(t, at),
        ),
        i == items.len() ==> kind_at(t, at) == TokenKindView::RBrace,
        block_items(t, at, items_meant(items).take(i)) == (at + items_tokens(items, i).len(), Ok::<
            Seq<BlockItemView>,
            Seq<char>,
        >(items_meant(items))),
    decreases items, items.len() - i,
{
    reveal(block_items);
    reveal(block_item);
    let all = items_meant(items);
    if i < items.len() {
        let item = items[i];
        let front = item_tokens(item);
        let rest = items_tokens(items, i + 1);
        let end = at + front.len();
        lemma_split(t, at, front, feeds(item.lines) + rest);
        lemma_split(t, end, feeds(item.lines), rest);
        lemma_feeds(t, end, item.lines);
        lemma_items(items, i + 1, t, end + item.lines);
        assert(item_proper(item));
        lemma_item(item, t, at);
        assert(t[at].kind == front[0]);
        assert(all.take(i).push(item_meant(item)) =~= all.take(i + 1));
    } else {
        assert(all.take(i) =~= all);
    }
}

proof fn lemma_args(args: Seq<Form>, t: Seq<TokenView>, at: int)
    requires
        all_proper(args, 0),
        stands(t, at, args_tokens(args)),
    ensures
        kind_at(t, at) == TokenKindView::LParen,
        call_arguments(t, at + 1) == (at + args_tokens(args).len(), Ok::<
            Seq<ExprView>,
            Seq<char>,
        >(all_meant(args))),
    decreases args, args.len() + 1,
{
    let all = all_meant(args);
    let close = seq![TokenKindView::RParen];
    let inner = if args.len() == 0 {
        Seq::empty()
    } else {
        form_tokens(args[0]) + more_args_tokens(args, 1)
    };
    let last = at + 1 + inner.len();
    lemma_head(t, at, TokenKindView::LParen, inner + close);
    lemma_split(t, at + 1, inner, close);
    lemma_one(t, last, TokenKindView::RParen);
    if args.len() == 0 {
        assert(all =~= Seq::empty());
        lemma_no_arguments(t, at + 1);
    } else {
        let front = form_tokens(args[0]);
        lemma_split(t, at + 1, front, more_args_tokens(args, 1));
        lemma_form_start(args[0]);
        assert(t[at + 1].kind == front[0]);
        lemma_more_args(args, 1, t, at + 1 + front.len());
        lemma_expression(args[0], t, at + 1);
        assert(all.take(1) =~= seq![meant(args[0])]);
        lemma_arguments_parts(t, at + 1, at + 1 + front.len(), last, meant(args[0]), all);
    }
}

proof fn lemma_more_args(args: Seq<Form>, i: int, t: Seq<TokenView>, at: int)
    requires
        0 <= i <= args.len(),
        all_proper(args, i),
        stands(t, at, more_args_tokens(args, i)),
        kind_at(t, at + more_args_tokens(args, i).len()) == TokenKindView::RParen,
    ensures
        more_arguments(t, at, all_meant(args).take(i)) == (at + more_args_tokens(args, i).len(), Ok::<
            Seq<ExprView>,
            Seq<char>,
        >(all_meant(args))),
        kind_at(t, at) == TokenKindView::RParen || kind_at(t, at) == TokenKindView::Comma,
    decreases args, args.len() - i,
{
    reveal(more_arguments);
    reveal(expression);
    let all = all_meant(args);
    if i < args.len() {
        let front = form_tokens(args[i]);
        let rest = more_args_tokens(args, i + 1);
        lemma_head(t, at, TokenKindView::Comma, front + rest);
        lemma_split(t, at + 1, front, rest);
        lemma_form_start(args[i]);
        lemma_more_args(args, i + 1, t, at + 1 + front.len());
        lemma_expression(args[i], t, at + 1);
        assert(all.take(i).push(meant(args[i])) =~= all.take(i + 1));
    } else {
        assert(all.take(i) =~= all);
    }
}

/// An attribute, and the number of newlines behind it.
pub struct FormAttribute {
    pub name: Seq<char>,
    pub args: Option<Seq<Seq<char>>>,
    pub lines: nat,
}

/// A function as it is written: the number of newlines before it, its attributes, and either name
/// of the type of its result.
pub struct FormFunction {
    pub lines: nat,
    pub attributes: Seq<FormAttribute>,
    pub name: Seq<char>,
    pub params: Seq<Seq<char>>,
    pub ret: Option<(PrimType, bool)>,
    pub body: FormBlock,
}

/// A program as it is written, with the number of newlines at its end.
pub struct FormProgram {
    pub functions: Seq<FormFunction>,
    pub lines: nat,
}

pub open spec fn attribute_tokens(attribute: FormAttribute) -> Seq<TokenKindView> {
    seq![TokenKindView::Hash] + (seq![TokenKindView::LBracket] + (seq![
        TokenKindView::Ident(attribute.name),
    ] + (match attribute.args {
        Some(args) => params_tokens(args),
        None => Seq::empty(),
    } + seq![TokenKindView::RBracket])))
}

/// The attributes from `i` on.
pub open spec fn attributes_tokens(list: Seq<FormAttribute>, i: int) -> Seq<TokenKindView>
    decreases list.len() - i,
{
    if 0 <= i < list.len() {
        attribute_tokens(list[i]) + (feeds(list[i].lines) + attributes_tokens(list, i + 1))
    } else {
        Seq::empty()
    }
}

/// The names of a type.
pub open spec fn type_word(ty: PrimType, small: bool) -> Seq<char> {
    match (ty, small) {
        (PrimType::I32, false) => "I32"@,
        (PrimType::I32, true) => "i32"@,
        (PrimType::Bool, false) => "Bool"@,
        (PrimType::Bool, true) => "bool"@,
        (PrimType::Unit, false) => "Unit"@,
        (PrimType::Unit, true) => "unit"@,
    }
}

pub open spec fn ret_tokens(ret: Option<(PrimType, bool)>) -> Seq<TokenKindView> {
    match ret {
        Some((ty, small)) => seq![TokenKindView::Arrow, TokenKindView::Ident(type_word(ty, small))],
        None => Seq::empty(),
    }
}

/// The function without its attributes.
pub open spec fn header_tokens(function: FormFunction) -> Seq<TokenKindView> {
    seq![TokenKindView::Fn] + (name_tokens(function.name) + (params_tokens(function.params) + (
    ret_tokens(function.ret) + block_tokens(function.body))))
}

pub open spec fn function_tokens(function: FormFunction) -> Seq<TokenKindView> {
    attributes_tokens(function.attributes, 0) + header_tokens(function)
}

/// The functions from `i` on, and the end.
pub open spec fn functions_tokens(program: FormProgram, i: int) -> Seq<TokenKindView>
    decreases program.functions.len() - i,
{
    if 0 <= i < program.functions.len() {
        feeds(program.functions[i].lines) + (function_tokens(program.functions[i])
            + functions_tokens(program, i + 1))
    } else {
        feeds(program.lines) + seq![TokenKindView::Eof]
    }
}

pub open spec fn function_meant(function: FormFunction) -> FunctionView {
    FunctionView {
        name: function.name,
        params: function.params,
        return_annotation: match function.ret {
            Some((ty, _)) => Some(ty),
            None => None,
        },
        body: block_meant(function.body),
    }
}

pub open spec fn program_meant(program: FormProgram) -> ProgramView {
    ProgramView {
        functions: program.functions.map_values(
            |function: FormFunction| function_meant(function),
        ),
    }
}

proof fn lemma_type_word(ty: PrimType, small: bool)
    ensures
        type_named(type_word(ty, small)) == Some(ty),
{
    reveal_strlit("I32");
    reveal_strlit("i32");
    reveal_strlit("Bool");
    reveal_strlit("bool");
    reveal_strlit("Unit");
    reveal_strlit("unit");
    assert("I32"@.len() == 3 && "i32"@.len() == 3);
    assert("Bool"@.len() == 4 && "bool"@.len() == 4 && "Unit"@.len() == 4 && "unit"@.len() == 4);
    assert("Bool"@[0] == 'B' && "bool"@[0] == 'b');
    assert("Unit"@[0] == 'U' && "unit"@[0] == 'u');
}

proof fn lemma_function(f: FormFunction, t: Seq<TokenView>, at: int)
    requires
        block_proper(f.body),
        stands(t, at, header_tokens(f)),
    ensures
        kind_at(t, at) == TokenKindView::Fn,
        header_tokens(f).len() > 0,
        function(t, at) == (at + header_tokens(f).len(), Ok::<FunctionView, Seq<char>>(
            function_meant(f),
        )),
{
    let name = name_tokens(f.name);
    let params = params_tokens(f.params);
    let arrow = ret_tokens(f.ret);
    let body = block_tokens(f.body);
    let open = at + 1 + name.len();
    let start = open + params.len();
    lemma_head(t, at, TokenKindView::Fn, name + (params + (arrow + body)));
    lemma_split(t, at + 1, name, params + (arrow + body));
    lemma_split(t, open, params, arrow + body);
    lemma_split(t, start, arrow, body);
    lemma_params(f.params, t, open);
    lemma_name(f.name, t, at + 1);
    lemma_block(f.body, t, start + arrow.len());
    assert(annotation(t, start) == (start + arrow.len(), Ok::<Option<PrimType>, Seq<char>>(
        function_meant(f).return_annotation,
    ))) by {
        if let Some((ty, small)) = f.ret {
            lemma_two(t, start, TokenKindView::Arrow, TokenKindView::Ident(type_word(ty, small)));
            lemma_type_word(ty, small);
        }
    }
    reveal(function);
}

proof fn lemma_attribute(a: FormAttribute, t: Seq<TokenView>, at: int)
    requires
        stands(t, at, attribute_tokens(a)),
    ensures
        kind_at(t, at) == TokenKindView::Hash,
        attribute(t, at + 1) == (at + attribute_tokens(a).len(), Ok::<(), Seq<char>>(())),
        attribute_tokens(a).len() > 1,
{
    let close = seq![TokenKindView::RBracket];
    let args = match a.args {
        Some(args) => params_tokens(args),
        None => Seq::empty(),
    };
    let name = TokenKindView::Ident(a.name);
    lemma_head(
        t,
        at,
        TokenKindView::Hash,
        seq![TokenKindView::LBracket] + (seq![name] + (args + close)),
    );
    lemma_head(t, at + 1, TokenKindView::LBracket, seq![name] + (args + close));
    lemma_head(t, at + 2, name, args + close);
    lemma_split(t, at + 3, args, close);
    lemma_one(t, at + 3 + args.len(), TokenKindView::RBracket);
    if let Some(names) = a.args {
        lemma_params(names, t, at + 3);
    }
}

/// Attributes are skipped, with the newlines before and behind each.
proof fn lemma_attributes(list: Seq<FormAttribute>, i: int, lines: nat, t: Seq<TokenView>, at: int)
    requires
        0 <= i <= list.len(),
        stands(t, at, feeds(lines) + attributes_tokens(list, i)),
        kind_at(t, at + lines + attributes_tokens(list, i).len()) == TokenKindView::Fn,
    ensures
        attributes(t, at) == (at + lines + attributes_tokens(list, i).len(), Ok::<(), Seq<char>>(())),
    decreases list.len() - i,
{
    let start = at + lines;
    lemma_split(t, at, feeds(lines), attributes_tokens(list, i));
    lemma_feeds(t, at, lines);
    reveal(attributes);
    if i < list.len() {
        let front = attribute_tokens(list[i]);
        let next = start + front.len();
        lemma_split(t, start, front, feeds(list[i].lines) + attributes_tokens(list, i + 1));
        lemma_attribute(list[i], t, start);
        lemma_attributes(list, i + 1, list[i].lines, t, next);
        assert(newlines(t, at) == start);
    } else {
        assert(newlines(t, at) == start);
    }
}

proof fn lemma_functions(program: FormProgram, i: int, t: Seq<TokenView>, at: int)
    requires
        0 <= i <= program.functions.len(),
        forall|k: int|
            0 <= k < program.functions.len() ==> block_proper(
                (#[trigger] program.functions[k]).body,
            ),
        stands(t, at, functions_tokens(program, i)),
    ensures
        functions_tokens(program, i).len() > 0,
        declarations(t, newlines(t, at), program_meant(program).functions.take(i)) == (
            at + functions_tokens(program, i).len() - 1,
            Ok::<Seq<FunctionView>, Seq<char>>(program_meant(program).functions),
        ),
    decreases program.functions.len() - i,
{
    reveal(declarations);
    let all = program_meant(program).functions;
    if i < program.functions.len() {
        let f = program.functions[i];
        let front = function_tokens(f);
        let rest = functions_tokens(program, i + 1);
        let marks = attributes_tokens(f.attributes, 0);
        let header = header_tokens(f);
        let start = at + f.lines;
        let end = start + front.len();
        lemma_split(t, at, feeds(f.lines), front + rest);
        lemma_feeds(t, at, f.lines);
        lemma_split(t, start, front, rest);
        lemma_split(t, start, marks, header);
        lemma_function(f, t, start + marks.len());
        assert(feeds(0) + marks =~= marks);
        lemma_attributes(f.attributes, 0, 0, t, start);
        assert(newlines(t, start) == start) by {
            if f.attributes.len() > 0 {
                lemma_split(
                    t,
                    start,
                    attribute_tokens(f.attributes[0]),
                    feeds(f.attributes[0].lines) + attributes_tokens(f.attributes, 1),
                );
                lemma_attribute(f.attributes[0], t, start);
            }
        }
        assert(kind_at(t, start) != TokenKindView::Eof) by {
            if f.attributes.len() > 0 {
                lemma_split(
                    t,
                    start,
                    attribute_tokens(f.attributes[0]),
                    feeds(f.attributes[0].lines) + attributes_tokens(f.attributes, 1),
                );
                lemma_attribute(f.attributes[0], t, start);
            }
        }
        lemma_functions(program, i + 1, t, end);
        assert(all.take(i).push(function_meant(f)) =~= all.take(i + 1));
        assert(declaration(t, start) == (end, Ok::<FunctionView, Seq<char>>(function_meant(f))));
    } else {
        lemma_split(t, at, feeds(program.lines), seq![TokenKindView::Eof]);
        lemma_feeds(t, at, program.lines);
        lemma_one(t, at + program.lines, TokenKindView::Eof);
        assert(all.take(i) =~= all);
    }
}

/// A program is read as what it means, however it is written: parentheses do not matter beyond
/// what they hold together, newlines do not matter where they may stand, attributes are passed
/// over, and both names of a type stand for it.
pub proof fn law_parses(form: FormProgram, t: Seq<TokenView>)
    requires
        forall|k: int|
            0 <= k < form.functions.len() ==> block_proper((#[trigger] form.functions[k]).body),
        kinds(t) == functions_tokens(form, 0),
    ensures
        program(t, 0) == (t.len() - 1, Ok::<ProgramView, Seq<char>>(program_meant(form))),
{
    let k = functions_tokens(form, 0);
    assert(kinds(t).len() == t.len());
    assert forall|i: int| 0 <= i < k.len() implies (#[trigger] t[i]).kind == k[i] by {
        assert(kinds(t)[i] == k[i]);
    }
    lemma_functions(form, 0, t, 0);
    assert(program_meant(form).functions.take(0) =~= Seq::empty());
}

} // verus!
