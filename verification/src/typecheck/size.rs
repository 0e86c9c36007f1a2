//! The size of syntax trees, by which the checker descends.
use vstd::prelude::*;

use crate::ast::{BlockItemView, BlockView, ExprView, MatchArmView};

verus! {

pub open spec fn expr_size(e: ExprView) -> nat
    decreases e, 0int,
{
    match e {
        ExprView::Call { args, .. } => 1 + exprs_size(args, args.len() as int),
        ExprView::MethodCall { receiver, args, .. } => 1 + expr_size(*receiver) + exprs_size(
            args,
            args.len() as int,
        ),
        ExprView::FieldAccess { receiver, .. } => 1 + expr_size(*receiver),
        ExprView::StructLiteral { value, .. } => 1 + expr_size(*value),
        ExprView::Binary { left, right, .. } => 1 + expr_size(*left) + expr_size(*right),
        ExprView::Match { scrutinee, arms } => 1 + expr_size(*scrutinee) + arms_size(
            arms,
            arms.len() as int,
        ),
        ExprView::Block(block) => 1 + block_size(block),
        _ => 1,
    }
}

/// The size of the first `n` expressions.
pub open spec fn exprs_size(list: Seq<ExprView>, n: int) -> nat
    decreases list, n,
{
    if n <= 0 || n > list.len() {
        1
    } else {
        exprs_size(list, n - 1) + expr_size(list[n - 1])
    }
}

pub open spec fn arm_size(arm: MatchArmView) -> nat
    decreases arm, 0int,
{
    expr_size(arm.expr)
}

/// The size of the first `n` arms.
pub open spec fn arms_size(list: Seq<MatchArmView>, n: int) -> nat
    decreases list, n,
{
    if n <= 0 || n > list.len() {
        1
    } else {
        arms_size(list, n - 1) + arm_size(list[n - 1])
    }
}

pub open spec fn block_size(block: BlockView) -> nat
    decreases block, 0int,
{
    items_size(block.items, block.items.len() as int)
}

pub open spec fn item_size(item: BlockItemView) -> nat
    decreases item, 0int,
{
    match item {
        BlockItemView::Binding { expr, .. } => expr_size(expr),
        BlockItemView::Expr(expr) => expr_size(expr),
    }
}

/// The size of the first `n` items.
pub open spec fn items_size(list: Seq<BlockItemView>, n: int) -> nat
    decreases list, n,
{
    if n <= 0 || n > list.len() {
        1
    } else {
        items_size(list, n - 1) + item_size(list[n - 1])
    }
}

/// An expression is smaller than a list that holds it.
pub proof fn lemma_exprs_size(list: Seq<ExprView>, i: int, n: int)
    requires
        0 <= i < n <= list.len(),
    ensures
        expr_size(list[i]) < exprs_size(list, n),
    decreases n,
{
    assert(exprs_size(list, n - 1) >= 1) by {
        lemma_exprs_positive(list, n - 1);
    }
    if i < n - 1 {
        lemma_exprs_size(list, i, n - 1);
    }
}

pub proof fn lemma_exprs_positive(list: Seq<ExprView>, n: int)
    ensures
        exprs_size(list, n) >= 1,
    decreases n,
{
    if 0 < n <= list.len() {
        lemma_exprs_positive(list, n - 1);
    }
}

pub proof fn lemma_arms_size(list: Seq<MatchArmView>, i: int, n: int)
    requires
        0 <= i < n <= list.len(),
    ensures
        arm_size(list[i]) < arms_size(list, n),
    decreases n,
{
    assert(arms_size(list, n - 1) >= 1) by {
        lemma_arms_positive(list, n - 1);
    }
    if i < n - 1 {
        lemma_arms_size(list, i, n - 1);
    }
}

pub proof fn lemma_arms_positive(list: Seq<MatchArmView>, n: int)
    ensures
        arms_size(list, n) >= 1,
    decreases n,
{
    if 0 < n <= list.len() {
        lemma_arms_positive(list, n - 1);
    }
}

pub proof fn lemma_items_size(list: Seq<BlockItemView>, i: int, n: int)
    requires
        0 <= i < n <= list.len(),
    ensures
        item_size(list[i]) < items_size(list, n),
    decreases n,
{
    assert(items_size(list, n - 1) >= 1) by {
        lemma_items_positive(list, n - 1);
    }
    if i < n - 1 {
        lemma_items_size(list, i, n - 1);
    }
}

pub proof fn lemma_items_positive(list: Seq<BlockItemView>, n: int)
    ensures
        items_size(list, n) >= 1,
    decreases n,
{
    if 0 < n <= list.len() {
        lemma_items_positive(list, n - 1);
    }
}

} // verus!
