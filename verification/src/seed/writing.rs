//! Programs written down as tokens, with parentheses only where operators would bind otherwise.
use vstd::prelude::*;

use crate::seed::ast::{
    BinaryOp, BlockItemView, BlockView, ExprView, FunctionView, MatchArmView, Pattern, PrimType,
    ProgramView,
};
use crate::seed::lexer::{TokenKindView, TokenView};
use crate::text::ends_with_bang;

verus! {

/// The kinds of a list of tokens.
pub open spec fn kinds(t: Seq<TokenView>) -> Seq<TokenKindView> {
    t.map_values(|token: TokenView| token.kind)
}

/// How tightly an operator binds: comparisons least, then sums and differences, then products.
pub open spec fn op_level(op: BinaryOp) -> int {
    match op {
        BinaryOp::Eq | BinaryOp::Lt => 0,
        BinaryOp::Add | BinaryOp::Sub => 1,
        BinaryOp::Mul => 2,
    }
}

/// How tightly an expression binds. Method calls, and what needs no operator, bind most.
pub open spec fn level(e: ExprView) -> int {
    match e {
        ExprView::Binary { op, .. } => op_level(op),
        _ => 3,
    }
}

pub open spec fn op_kind(op: BinaryOp) -> TokenKindView {
    match op {
        BinaryOp::Eq => TokenKindView::EqEq,
        BinaryOp::Lt => TokenKindView::Lt,
        BinaryOp::Add => TokenKindView::Plus,
        BinaryOp::Sub => TokenKindView::Minus,
        BinaryOp::Mul => TokenKindView::Star,
    }
}

/// A name; the exclamation mark at its end is a token of its own.
pub open spec fn name_tokens(name: Seq<char>) -> Seq<TokenKindView> {
    if ends_with_bang(name) {
        seq![TokenKindView::Ident(name.drop_last()), TokenKindView::Bang]
    } else {
        seq![TokenKindView::Ident(name)]
    }
}

pub open spec fn bool_kind(value: bool) -> TokenKindView {
    if value {
        TokenKindView::True
    } else {
        TokenKindView::False
    }
}

pub open spec fn pattern_tokens(pattern: Pattern) -> Seq<TokenKindView> {
    match pattern {
        Pattern::Int(value) => seq![TokenKindView::Int(value)],
        Pattern::Bool(value) => seq![bool_kind(value)],
        Pattern::Unit => seq![TokenKindView::LParen, TokenKindView::RParen],
        Pattern::Wildcard => seq![TokenKindView::Ident("_"@)],
    }
}

/// An expression where something that binds at least as tightly as `least` is needed.
pub open spec fn written(e: ExprView, least: int) -> Seq<TokenKindView>
    decreases e, 1int,
{
    if level(e) < least {
        seq![TokenKindView::LParen] + bare(e) + seq![TokenKindView::RParen]
    } else {
        bare(e)
    }
}

/// An expression without parentheses around it. Operators associate to the left.
pub open spec fn bare(e: ExprView) -> Seq<TokenKindView>
    decreases e, 0int,
{
    match e {
        ExprView::Int(value) => seq![TokenKindView::Int(value)],
        ExprView::Bool(value) => seq![bool_kind(value)],
        ExprView::Unit => seq![TokenKindView::LParen, TokenKindView::RParen],
        ExprView::Var(name) => seq![TokenKindView::Ident(name)],
        ExprView::Call { name, args } => name_tokens(name) + args_tokens(args),
        ExprView::MethodCall { receiver, name, args } => written(*receiver, 3) + (seq![
            TokenKindView::Dot,
            TokenKindView::Ident(name),
        ] + args_tokens(args)),
        ExprView::Binary { op, left, right } => written(*left, op_level(op)) + (seq![op_kind(op)]
            + written(*right, op_level(op) + 1)),
        ExprView::Match { scrutinee, arms } => seq![TokenKindView::Match] + (written(*scrutinee, 0)
            + (seq![TokenKindView::LBrace] + (arms_tokens(arms, 0) + seq![TokenKindView::RBrace]))),
        ExprView::Block(block) => block_tokens(block),
    }
}

/// Arguments in parentheses.
pub open spec fn args_tokens(args: Seq<ExprView>) -> Seq<TokenKindView>
    decreases args, args.len() + 1,
{
    seq![TokenKindView::LParen] + (if args.len() == 0 {
        Seq::empty()
    } else {
        written(args[0], 0) + more_args_tokens(args, 1)
    } + seq![TokenKindView::RParen])
}

/// The arguments from `i` on, each after a comma.
pub open spec fn more_args_tokens(args: Seq<ExprView>, i: int) -> Seq<TokenKindView>
    decreases args, args.len() - i,
{
    if 0 <= i < args.len() {
        seq![TokenKindView::Comma] + (written(args[i], 0) + more_args_tokens(args, i + 1))
    } else {
        Seq::empty()
    }
}

/// The arms from `i` on, each on a line.
pub open spec fn arms_tokens(arms: Seq<MatchArmView>, i: int) -> Seq<TokenKindView>
    decreases arms, arms.len() - i,
{
    if 0 <= i < arms.len() {
        pattern_tokens(arms[i].pattern) + (seq![TokenKindView::Arrow] + (written(arms[i].expr, 0)
            + (seq![TokenKindView::Newline] + arms_tokens(arms, i + 1))))
    } else {
        Seq::empty()
    }
}

pub open spec fn block_tokens(block: BlockView) -> Seq<TokenKindView>
    decreases block, 0int,
{
    seq![TokenKindView::LBrace] + (items_tokens(block.items, 0) + seq![TokenKindView::RBrace])
}

pub open spec fn item_tokens(item: BlockItemView) -> Seq<TokenKindView>
    decreases item, 0int,
{
    match item {
        BlockItemView::Binding { name, expr } => seq![
            TokenKindView::Ident(name),
            TokenKindView::Eq,
        ] + written(expr, 0),
        BlockItemView::Expr(expr) => written(expr, 0),
    }
}

/// The items from `i` on, each on a line.
pub open spec fn items_tokens(items: Seq<BlockItemView>, i: int) -> Seq<TokenKindView>
    decreases items, items.len() - i,
{
    if 0 <= i < items.len() {
        item_tokens(items[i]) + (seq![TokenKindView::Newline] + items_tokens(items, i + 1))
    } else {
        Seq::empty()
    }
}

pub open spec fn more_params_tokens(params: Seq<Seq<char>>, i: int) -> Seq<TokenKindView>
    decreases params.len() - i,
{
    if 0 <= i < params.len() {
        seq![TokenKindView::Comma, TokenKindView::Ident(params[i])] + more_params_tokens(
            params,
            i + 1,
        )
    } else {
        Seq::empty()
    }
}

/// Parameters in parentheses.
pub open spec fn params_tokens(params: Seq<Seq<char>>) -> Seq<TokenKindView> {
    seq![TokenKindView::LParen] + (if params.len() == 0 {
        Seq::empty()
    } else {
        seq![TokenKindView::Ident(params[0])] + more_params_tokens(params, 1)
    } + seq![TokenKindView::RParen])
}

pub open spec fn type_name_of(ty: PrimType) -> Seq<char> {
    match ty {
        PrimType::I32 => "I32"@,
        PrimType::Bool => "Bool"@,
        PrimType::Unit => "Unit"@,
    }
}

pub open spec fn annotation_tokens(annotation: Option<PrimType>) -> Seq<TokenKindView> {
    match annotation {
        Some(ty) => seq![TokenKindView::Arrow, TokenKindView::Ident(type_name_of(ty))],
        None => Seq::empty(),
    }
}

pub open spec fn function_tokens(function: FunctionView) -> Seq<TokenKindView> {
    seq![TokenKindView::Fn] + (name_tokens(function.name) + (params_tokens(function.params) + (
    annotation_tokens(function.return_annotation) + block_tokens(function.body))))
}

/// The functions from `i` on, each on lines of its own.
pub open spec fn functions_tokens(functions: Seq<FunctionView>, i: int) -> Seq<TokenKindView>
    decreases functions.len() - i,
{
    if 0 <= i < functions.len() {
        function_tokens(functions[i]) + (seq![TokenKindView::Newline] + functions_tokens(
            functions,
            i + 1,
        ))
    } else {
        Seq::empty()
    }
}

/// A program written down, without the mark of its end.
pub open spec fn program_tokens(program: ProgramView) -> Seq<TokenKindView> {
    functions_tokens(program.functions, 0)
}

/// The variables of the expression have names that no exclamation mark ends.
pub open spec fn writable(e: ExprView) -> bool
    decreases e, 0int,
{
    match e {
        ExprView::Int(_) | ExprView::Bool(_) | ExprView::Unit => true,
        ExprView::Var(name) => !ends_with_bang(name),
        ExprView::Call { name: _, args } => all_writable(args, 0),
        ExprView::MethodCall { receiver, name: _, args } => writable(*receiver) && all_writable(
            args,
            0,
        ),
        ExprView::Binary { op: _, left, right } => writable(*left) && writable(*right),
        ExprView::Match { scrutinee, arms } => writable(*scrutinee) && arms_writable(arms, 0),
        ExprView::Block(block) => block_writable(block),
    }
}

pub open spec fn all_writable(list: Seq<ExprView>, i: int) -> bool
    decreases list, list.len() - i,
{
    0 <= i < list.len() ==> writable(list[i]) && all_writable(list, i + 1)
}

pub open spec fn arms_writable(arms: Seq<MatchArmView>, i: int) -> bool
    decreases arms, arms.len() - i,
{
    0 <= i < arms.len() ==> writable(arms[i].expr) && arms_writable(arms, i + 1)
}

pub open spec fn block_writable(block: BlockView) -> bool
    decreases block, 0int,
{
    items_writable(block.items, 0)
}

pub open spec fn item_writable(item: BlockItemView) -> bool
    decreases item, 0int,
{
    match item {
        BlockItemView::Binding { name: _, expr } => writable(expr),
        BlockItemView::Expr(expr) => writable(expr),
    }
}

pub open spec fn items_writable(items: Seq<BlockItemView>, i: int) -> bool
    decreases items, items.len() - i,
{
    0 <= i < items.len() ==> item_writable(items[i]) && items_writable(items, i + 1)
}

/// The variables of the program have names that no exclamation mark ends.
pub open spec fn program_writable(program: ProgramView) -> bool {
    forall|i: int|
        0 <= i < program.functions.len() ==> block_writable(
            (#[trigger] program.functions[i]).body,
        )
}

} // verus!
