//! Capabilities come from calls: what an expression needs, a function that it calls declares.
use vstd::prelude::*;

use crate::ast::{BlockItemView, BlockView, ExprView, MatchArmView, TypeView};
use crate::capability::{ascending, has_rank, law_union};
use crate::typecheck::checker::{sane, signature_sane};
use crate::typecheck::effects::{
    args_call, arm_calls, arms_call, block_calls, calls, item_calls, items_call,
    lemma_pattern_names,
};
use crate::typecheck::model::{
    absorbed, args_checked, arm_checked, arms_checked, block_checked, call_checked, called,
    constrained, constructor_checked, effects, expr_checked, item_checked, items_checked, matched,
    method_selected, operator_name, pattern_checked, unified, value_args_checked,
    value_call_checked, Env, Info, Scope, Types, Variant,
};
use crate::typecheck::stability::{
    lemma_absorbed, lemma_arm, lemma_constrained, lemma_expr, lemma_item, lemma_kept_twice,
    lemma_method_selected, lemma_pattern, lemma_ready, lemma_unified, ready,
};

verus! {

/// The function declares the capability of the rank.
pub open spec fn declares(env: Env, callee: Seq<char>, rank: u32) -> bool {
    &&& env.signatures.contains_key(callee)
    &&& env.signatures[callee].declared matches Some(declared) && has_rank(declared, rank)
}

/// A capability of an accepted expression is declared by a function that the expression calls.
pub proof fn lemma_expr_needs(
    env: Env,
    types: Types,
    scope: Scope,
    e: ExprView,
    rank: u32,
) -> (callee: Seq<char>)
    requires
        ready(env, types, scope),
        expr_checked(env, types, scope, e).1 matches Ok(info) && has_rank(info.capabilities, rank),
    ensures
        declares(env, callee, rank),
        calls(env, scope.dom(), e, callee),
    decreases e, 0int,
{
    match e {
        ExprView::Call { name, args } => if env.variants.contains_key(name) {
            lemma_constructor_needs(env, types, scope, name, env.variants[name], args, rank)
        } else if scope.contains_key(name) {
            lemma_value_call_needs(env, types, scope, name, scope[name], args, rank)
        } else {
            lemma_call_needs(env, types, scope, name, args, rank)
        },
        ExprView::MethodCall { receiver, name, args } => {
            lemma_expr(env, types, scope, *receiver);
            let (one, result) = expr_checked(env, types, scope, *receiver);
            let front = result->Ok_0;
            if has_rank(front.capabilities, rank) {
                lemma_expr_needs(env, types, scope, *receiver, rank)
            } else {
                lemma_method_selected(one, front, name, args.len());
                let two = method_selected(one, front, name, args.len()).0;
                lemma_kept_twice(types, one, two);
                lemma_ready(env, types, scope, two);
                let back = expr_checked(env, two, scope, args[0]).1->Ok_0;
                law_union(front.capabilities, back.capabilities);
                let callee = lemma_expr_needs(env, two, scope, args[0], rank);
                assert(args_call(env, scope.dom(), args, callee, 0));
                callee
            }
        },
        ExprView::FieldAccess { receiver, .. } => lemma_expr_needs(
            env,
            types,
            scope,
            *receiver,
            rank,
        ),
        ExprView::StructLiteral { value, .. } => lemma_expr_needs(env, types, scope, *value, rank),
        ExprView::Binary { op, left, right } => {
            let name = operator_name(op);
            lemma_expr(env, types, scope, *left);
            let (one, result) = expr_checked(env, types, scope, *left);
            let front = result->Ok_0;
            if has_rank(front.capabilities, rank) {
                lemma_expr_needs(env, types, scope, *left, rank)
            } else {
                lemma_method_selected(one, front, name, 1);
                let two = method_selected(one, front, name, 1).0;
                lemma_kept_twice(types, one, two);
                lemma_ready(env, types, scope, two);
                let back = expr_checked(env, two, scope, *right).1->Ok_0;
                law_union(front.capabilities, back.capabilities);
                lemma_expr_needs(env, two, scope, *right, rank)
            }
        },
        ExprView::Match { scrutinee, arms } => {
            lemma_expr(env, types, scope, *scrutinee);
            let (one, result) = expr_checked(env, types, scope, *scrutinee);
            let info = result->Ok_0;
            lemma_ready(env, types, scope, one);
            if has_rank(info.capabilities, rank) {
                lemma_expr_needs(env, types, scope, *scrutinee, rank)
            } else {
                lemma_matched_needs(env, one, scope, info, arms, rank)
            }
        },
        ExprView::Block(block) => lemma_block_needs(env, types, scope, block, rank),
        _ => arbitrary(),
    }
}

proof fn lemma_constructor_needs(
    env: Env,
    types: Types,
    scope: Scope,
    name: Seq<char>,
    variant: Variant,
    args: Seq<ExprView>,
    rank: u32,
) -> (callee: Seq<char>)
    requires
        ready(env, types, scope),
        constructor_checked(env, types, scope, name, variant, args).1 matches Ok(info) && has_rank(
            info.capabilities,
            rank,
        ),
    ensures
        declares(env, callee, rank),
        args_call(env, scope.dom(), args, callee, 0),
    decreases args, args.len() + 1,
{
    assert(args.len() == 1);
    lemma_expr_needs(env, types, scope, args[0], rank)
}

proof fn lemma_call_needs(
    env: Env,
    types: Types,
    scope: Scope,
    name: Seq<char>,
    args: Seq<ExprView>,
    rank: u32,
) -> (callee: Seq<char>)
    requires
        ready(env, types, scope),
        call_checked(env, types, scope, name, args).1 matches Ok(info) && has_rank(
            info.capabilities,
            rank,
        ),
    ensures
        declares(env, callee, rank),
        callee == name || args_call(env, scope.dom(), args, callee, 0),
    decreases args, args.len() + 1,
{
    let signature = env.signatures[name];
    assert(signature_sane(signature, types));
    if has_rank(called(signature).capabilities, rank) {
        name
    } else {
        lemma_args_needs(
            env,
            types,
            scope,
            args,
            signature.params,
            0,
            called(signature),
            rank,
        )
    }
}

proof fn lemma_args_needs(
    env: Env,
    types: Types,
    scope: Scope,
    args: Seq<ExprView>,
    params: Seq<int>,
    i: int,
    info: Info,
    rank: u32,
) -> (callee: Seq<char>)
    requires
        ready(env, types, scope),
        0 <= i,
        args.len() == params.len(),
        forall|k: int| 0 <= k < params.len() ==> types.has(#[trigger] params[k]),
        sane(info, types),
        !has_rank(info.capabilities, rank),
        args_checked(env, types, scope, args, params, i, info).1 matches Ok(all) && has_rank(
            all.capabilities,
            rank,
        ),
    ensures
        declares(env, callee, rank),
        args_call(env, scope.dom(), args, callee, i),
    decreases args, args.len() - i,
{
    lemma_expr(env, types, scope, args[i]);
    let (one, result) = expr_checked(env, types, scope, args[i]);
    let arg = result->Ok_0;
    if has_rank(arg.capabilities, rank) {
        lemma_expr_needs(env, types, scope, args[i], rank)
    } else {
        lemma_unified(one, arg.ty, params[i]);
        let two = unified(one, arg.ty, params[i]).0;
        lemma_kept_twice(types, one, two);
        lemma_ready(env, types, scope, two);
        lemma_absorbed(info, arg, two);
        law_union(info.capabilities, arg.capabilities);
        lemma_args_needs(env, two, scope, args, params, i + 1, absorbed(info, arg), rank)
    }
}

proof fn lemma_value_call_needs(
    env: Env,
    types: Types,
    scope: Scope,
    name: Seq<char>,
    slot: int,
    args: Seq<ExprView>,
    rank: u32,
) -> (callee: Seq<char>)
    requires
        ready(env, types, scope),
        value_call_checked(env, types, scope, name, slot, args).1 matches Ok(info) && has_rank(
            info.capabilities,
            rank,
        ),
    ensures
        declares(env, callee, rank),
        args_call(env, scope.dom(), args, callee, 0),
    decreases args, args.len() + 1,
{
    let function = types.value_of(slot)->Some_0->Function_0;
    let start = effects(function.effectful, Seq::empty());
    lemma_value_args_needs(env, types, scope, args, function.params, 0, start, rank)
}

proof fn lemma_value_args_needs(
    env: Env,
    types: Types,
    scope: Scope,
    args: Seq<ExprView>,
    params: Seq<TypeView>,
    i: int,
    info: Info,
    rank: u32,
) -> (callee: Seq<char>)
    requires
        ready(env, types, scope),
        0 <= i,
        ascending(info.capabilities),
        !has_rank(info.capabilities, rank),
        value_args_checked(env, types, scope, args, params, i, info).1 matches Ok(all) && has_rank(
            all.capabilities,
            rank,
        ),
    ensures
        declares(env, callee, rank),
        args_call(env, scope.dom(), args, callee, i),
    decreases args, args.len() - i,
{
    lemma_expr(env, types, scope, args[i]);
    let (one, result) = expr_checked(env, types, scope, args[i]);
    let arg = result->Ok_0;
    if has_rank(arg.capabilities, rank) {
        lemma_expr_needs(env, types, scope, args[i], rank)
    } else {
        lemma_constrained(one, arg.ty, params[i]);
        let two = constrained(one, arg.ty, params[i]).0;
        lemma_kept_twice(types, one, two);
        lemma_ready(env, types, scope, two);
        law_union(info.capabilities, arg.capabilities);
        lemma_value_args_needs(env, two, scope, args, params, i + 1, absorbed(info, arg), rank)
    }
}

proof fn lemma_matched_needs(
    env: Env,
    types: Types,
    scope: Scope,
    scrutinee: Info,
    arms: Seq<MatchArmView>,
    rank: u32,
) -> (callee: Seq<char>)
    requires
        ready(env, types, scope),
        sane(scrutinee, types),
        !has_rank(scrutinee.capabilities, rank),
        matched(env, types, scope, scrutinee, arms).1 matches Ok(info) && has_rank(
            info.capabilities,
            rank,
        ),
    ensures
        declares(env, callee, rank),
        arms_call(env, scope.dom(), arms, callee, 0),
    decreases arms, arms.len() + 1,
{
    let expected = types.value_of(scrutinee.ty)->Some_0;
    lemma_arms_needs(env, types, scope, arms, 0, expected, None, scrutinee, rank)
}

proof fn lemma_arm_needs(
    env: Env,
    types: Types,
    scope: Scope,
    arm: MatchArmView,
    expected: TypeView,
    rank: u32,
) -> (callee: Seq<char>)
    requires
        ready(env, types, scope),
        arm_checked(env, types, scope, arm, expected).1 matches Ok(info) && has_rank(
            info.capabilities,
            rank,
        ),
    ensures
        declares(env, callee, rank),
        arm_calls(env, scope.dom(), arm, callee),
    decreases arm, 0int,
{
    lemma_pattern(env, types, scope, arm.pattern, expected);
    lemma_pattern_names(env, types, scope, arm.pattern, expected);
    let (one, result) = pattern_checked(env, types, scope, arm.pattern, expected);
    lemma_ready(env, types, scope, one);
    lemma_expr_needs(env, one, result->Ok_0, arm.expr, rank)
}

proof fn lemma_arms_needs(
    env: Env,
    types: Types,
    scope: Scope,
    arms: Seq<MatchArmView>,
    i: int,
    expected: TypeView,
    result: Option<int>,
    info: Info,
    rank: u32,
) -> (callee: Seq<char>)
    requires
        ready(env, types, scope),
        0 <= i,
        result matches Some(id) ==> types.has(id),
        sane(info, types),
        !has_rank(info.capabilities, rank),
        arms_checked(env, types, scope, arms, i, expected, result, info).1 matches Ok(all)
            && has_rank(all.capabilities, rank),
    ensures
        declares(env, callee, rank),
        arms_call(env, scope.dom(), arms, callee, i),
    decreases arms, arms.len() - i,
{
    lemma_arm(env, types, scope, arms[i], expected);
    let (one, outcome) = arm_checked(env, types, scope, arms[i], expected);
    let arm = outcome->Ok_0;
    if has_rank(arm.capabilities, rank) {
        lemma_arm_needs(env, types, scope, arms[i], expected, rank)
    } else {
        lemma_ready(env, types, scope, one);
        lemma_absorbed(info, arm, one);
        law_union(info.capabilities, arm.capabilities);
        let more = absorbed(info, arm);
        match result {
            None => lemma_arms_needs(
                env,
                one,
                scope,
                arms,
                i + 1,
                expected,
                Some(arm.ty),
                more,
                rank,
            ),
            Some(existing) => {
                lemma_unified(one, existing, arm.ty);
                let two = unified(one, existing, arm.ty).0;
                lemma_ready(env, one, scope, two);
                lemma_arms_needs(env, two, scope, arms, i + 1, expected, result, more, rank)
            },
        }
    }
}

/// A capability of an accepted block is declared by a function that the block calls.
pub proof fn lemma_block_needs(
    env: Env,
    types: Types,
    scope: Scope,
    block: BlockView,
    rank: u32,
) -> (callee: Seq<char>)
    requires
        ready(env, types, scope),
        block_checked(env, types, scope, block).1 matches Ok(info) && has_rank(
            info.capabilities,
            rank,
        ),
    ensures
        declares(env, callee, rank),
        block_calls(env, scope.dom(), block, callee),
    decreases block, 0int,
{
    let start = effects(false, Seq::empty());
    lemma_items_needs(env, types, scope, block.items, 0, None, start, rank)
}

proof fn lemma_items_needs(
    env: Env,
    types: Types,
    scope: Scope,
    items: Seq<BlockItemView>,
    i: int,
    last: Option<int>,
    info: Info,
    rank: u32,
) -> (callee: Seq<char>)
    requires
        ready(env, types, scope),
        0 <= i,
        last matches Some(id) ==> types.has(id),
        ascending(info.capabilities),
        !has_rank(info.capabilities, rank),
        items_checked(env, types, scope, items, i, last, info).1 matches Ok(all) && has_rank(
            all.capabilities,
            rank,
        ),
    ensures
        declares(env, callee, rank),
        items_call(env, scope.dom(), items, callee, i),
    decreases items, items.len() - i,
{
    lemma_item(env, types, scope, items[i]);
    let (one, result) = item_checked(env, types, scope, items[i]);
    let item = result->Ok_0;
    if has_rank(item.capabilities, rank) {
        lemma_item_needs(env, types, scope, items[i], rank)
    } else {
        lemma_ready(env, types, scope, one);
        law_union(info.capabilities, item.capabilities);
        let more = absorbed(info, item);
        match items[i] {
            BlockItemView::Binding { name, .. } => {
                let inner = scope.insert(name, item.ty);
                assert(inner.dom() =~= scope.dom().insert(name));
                lemma_items_needs(env, one, inner, items, i + 1, None, more, rank)
            },
            BlockItemView::Expr(_) => lemma_items_needs(
                env,
                one,
                scope,
                items,
                i + 1,
                Some(item.ty),
                more,
                rank,
            ),
        }
    }
}

proof fn lemma_item_needs(
    env: Env,
    types: Types,
    scope: Scope,
    item: BlockItemView,
    rank: u32,
) -> (callee: Seq<char>)
    requires
        ready(env, types, scope),
        item_checked(env, types, scope, item).1 matches Ok(info) && has_rank(
            info.capabilities,
            rank,
        ),
    ensures
        declares(env, callee, rank),
        item_calls(env, scope.dom(), item, callee),
    decreases item, 0int,
{
    match item {
        BlockItemView::Binding { expr, .. } => lemma_expr_needs(env, types, scope, expr, rank),
        BlockItemView::Expr(expr) => lemma_expr_needs(env, types, scope, expr, rank),
    }
}

} // verus!
