//! Effects and capabilities of calls reach the expressions that make them.
use vstd::prelude::*;

use crate::ast::{BlockItemView, BlockView, ExprView, MatchArmView, PatternView, TypeView};
use crate::capability::{ascending, has_rank, law_union, union_of, within};
use crate::typecheck::checker::{sane, signature_sane};
use crate::typecheck::model::{
    absorbed, args_checked, arm_checked, arms_checked, block_checked, call_checked, called,
    constrained, constructor_checked, constructor_error, effects, expr_checked, item_checked,
    items_checked, matched, method_selected, operator_name, pattern_checked, pattern_opened,
    resolved, unified, value_args_checked, value_call_checked, Env, Info, Scope, Signature, Types,
    Variant,
};
use crate::typecheck::stability::{
    lemma_absorbed, lemma_arm, lemma_constrained, lemma_expr, lemma_item, lemma_kept_twice,
    lemma_method_selected, lemma_pattern, lemma_ready, lemma_unified, ready,
};

verus! {

/// The names in scope.
pub type Names = Set<Seq<char>>;

/// The names in scope after a pattern.
pub open spec fn pattern_names(pattern: PatternView, names: Names) -> Names
    decreases pattern,
{
    match pattern {
        PatternView::Var(name) => names.insert(name),
        PatternView::Variant { payload: Some(payload), .. } => pattern_names(*payload, names),
        _ => names,
    }
}

/// The expression calls the function by its name, where no variant and no name in scope hides it.
pub open spec fn calls(env: Env, names: Names, e: ExprView, callee: Seq<char>) -> bool
    decreases e, 0int,
{
    match e {
        ExprView::Call { name, args } => {
            ||| name == callee && !env.variants.contains_key(name) && !names.contains(name)
            ||| args_call(env, names, args, callee, 0)
        },
        ExprView::MethodCall { receiver, args, .. } => calls(env, names, *receiver, callee)
            || args_call(env, names, args, callee, 0),
        ExprView::FieldAccess { receiver, .. } => calls(env, names, *receiver, callee),
        ExprView::StructLiteral { value, .. } => calls(env, names, *value, callee),
        ExprView::Binary { left, right, .. } => calls(env, names, *left, callee) || calls(
            env,
            names,
            *right,
            callee,
        ),
        ExprView::Match { scrutinee, arms } => calls(env, names, *scrutinee, callee) || arms_call(
            env,
            names,
            arms,
            callee,
            0,
        ),
        ExprView::Block(block) => block_calls(env, names, block, callee),
        _ => false,
    }
}

/// One of the arguments from `i` on calls the function.
pub open spec fn args_call(
    env: Env,
    names: Names,
    args: Seq<ExprView>,
    callee: Seq<char>,
    i: int,
) -> bool
    decreases args, args.len() - i,
{
    if i < 0 || i >= args.len() {
        false
    } else {
        calls(env, names, args[i], callee) || args_call(env, names, args, callee, i + 1)
    }
}

pub open spec fn arm_calls(env: Env, names: Names, arm: MatchArmView, callee: Seq<char>) -> bool
    decreases arm, 0int,
{
    calls(env, pattern_names(arm.pattern, names), arm.expr, callee)
}

/// One of the arms from `i` on calls the function.
pub open spec fn arms_call(
    env: Env,
    names: Names,
    arms: Seq<MatchArmView>,
    callee: Seq<char>,
    i: int,
) -> bool
    decreases arms, arms.len() - i,
{
    if i < 0 || i >= arms.len() {
        false
    } else {
        arm_calls(env, names, arms[i], callee) || arms_call(env, names, arms, callee, i + 1)
    }
}

pub open spec fn block_calls(env: Env, names: Names, block: BlockView, callee: Seq<char>) -> bool
    decreases block, 0int,
{
    items_call(env, names, block.items, callee, 0)
}

pub open spec fn item_calls(env: Env, names: Names, item: BlockItemView, callee: Seq<char>) -> bool
    decreases item, 0int,
{
    match item {
        BlockItemView::Binding { expr, .. } => calls(env, names, expr, callee),
        BlockItemView::Expr(expr) => calls(env, names, expr, callee),
    }
}

/// One of the items from `i` on calls the function.
pub open spec fn items_call(
    env: Env,
    names: Names,
    items: Seq<BlockItemView>,
    callee: Seq<char>,
    i: int,
) -> bool
    decreases items, items.len() - i,
{
    if i < 0 || i >= items.len() {
        false
    } else {
        item_calls(env, names, items[i], callee) || items_call(
            env,
            match items[i] {
                BlockItemView::Binding { name, .. } => names.insert(name),
                BlockItemView::Expr(_) => names,
            },
            items,
            callee,
            i + 1,
        )
    }
}

/// The effects are those of a function: where it has effects there are some, and the capabilities
/// that it declares are among them.
pub open spec fn covered(signature: Signature, info: Info) -> bool {
    &&& signature.effectful ==> info.effectful
    &&& signature.declared matches Some(declared) ==> within(declared, info.capabilities)
}

/// Effects are not lost where others are added.
pub proof fn lemma_covered(signature: Signature, info: Info, more: Info)
    requires
        ascending(info.capabilities),
        covered(signature, info) || covered(signature, more),
    ensures
        covered(signature, absorbed(info, more)),
{
    let all = union_of(info.capabilities, more.capabilities);
    law_union(info.capabilities, more.capabilities);
    if let Some(declared) = signature.declared {
        assert forall|i: int| 0 <= i < declared.len() implies has_rank(
            all,
            (#[trigger] declared[i]).rank,
        ) by {
            assert(has_rank(info.capabilities, declared[i].rank) || has_rank(
                more.capabilities,
                declared[i].rank,
            ));
        }
    }
}

pub proof fn lemma_called(signature: Signature)
    ensures
        covered(signature, called(signature)),
{
    if let Some(declared) = signature.declared {
        assert forall|i: int| 0 <= i < declared.len() implies has_rank(
            declared,
            (#[trigger] declared[i]).rank,
        ) by {}
    }
}

pub proof fn lemma_pattern_names(
    env: Env,
    types: Types,
    scope: Scope,
    pattern: PatternView,
    expected: TypeView,
)
    ensures
        pattern_checked(env, types, scope, pattern, expected).1 matches Ok(inner) ==> inner.dom()
            == pattern_names(pattern, scope.dom()),
    decreases pattern,
{
    match pattern {
        PatternView::Var(name) => {
            assert(scope.insert(name, types.len()).dom() =~= scope.dom().insert(name));
        },
        PatternView::Variant { name, payload } => {
            if let Ok(Some(inner)) = pattern_opened(env, expected, name, payload is Some) {
                lemma_pattern_names(env, types, scope, *payload->Some_0, inner);
            } else if payload is Some {
                let opened = pattern_opened(env, expected, name, true);
                assert(!(opened matches Ok(None)));
            }
        },
        _ => {},
    }
}

/// A call in an expression that is accepted has its effects in those of the expression.
pub proof fn lemma_expr_effects(
    env: Env,
    types: Types,
    scope: Scope,
    e: ExprView,
    callee: Seq<char>,
)
    requires
        ready(env, types, scope),
        env.signatures.contains_key(callee),
        calls(env, scope.dom(), e, callee),
    ensures
        expr_checked(env, types, scope, e).1 matches Ok(info) ==> covered(
            env.signatures[callee],
            info,
        ),
    decreases e, 0int,
{
    let names = scope.dom();
    let signature = env.signatures[callee];
    match e {
        ExprView::Call { name, args } => {
            if env.variants.contains_key(name) {
                lemma_constructor_effects(
                    env,
                    types,
                    scope,
                    name,
                    env.variants[name],
                    args,
                    callee,
                );
            } else if scope.contains_key(name) {
                lemma_value_call_effects(env, types, scope, name, scope[name], args, callee);
            } else {
                lemma_call_effects(env, types, scope, name, args, callee);
            }
        },
        ExprView::MethodCall { receiver, name, args } => {
            lemma_expr(env, types, scope, *receiver);
            if calls(env, names, *receiver, callee) {
                lemma_expr_effects(env, types, scope, *receiver, callee);
            }
            let (one, result) = expr_checked(env, types, scope, *receiver);
            if let Ok(receiver) = result {
                lemma_method_selected(one, receiver, name, args.len());
                let (two, selected) = method_selected(one, receiver, name, args.len());
                lemma_kept_twice(types, one, two);
                if let Ok(method) = selected {
                    lemma_ready(env, types, scope, two);
                    if args_call(env, names, args, callee, 0) {
                        assert(!args_call(env, names, args, callee, 1));
                        lemma_expr_effects(env, two, scope, args[0], callee);
                    }
                    let (three, result) = expr_checked(env, two, scope, args[0]);
                    if let Ok(arg) = result {
                        lemma_covered(signature, receiver, arg);
                    }
                }
            }
        },
        ExprView::FieldAccess { receiver, field } => {
            lemma_expr_effects(env, types, scope, *receiver, callee);
        },
        ExprView::StructLiteral { name, field, value } => {
            lemma_expr_effects(env, types, scope, *value, callee);
        },
        ExprView::Binary { op, left, right } => {
            let name = operator_name(op);
            lemma_expr(env, types, scope, *left);
            if calls(env, names, *left, callee) {
                lemma_expr_effects(env, types, scope, *left, callee);
            }
            let (one, result) = expr_checked(env, types, scope, *left);
            if let Ok(left) = result {
                lemma_method_selected(one, left, name, 1);
                let (two, selected) = method_selected(one, left, name, 1);
                lemma_kept_twice(types, one, two);
                if let Ok(method) = selected {
                    lemma_ready(env, types, scope, two);
                    if calls(env, names, *right, callee) {
                        lemma_expr_effects(env, two, scope, *right, callee);
                    }
                    let (three, result) = expr_checked(env, two, scope, *right);
                    if let Ok(right) = result {
                        lemma_covered(signature, left, right);
                    }
                }
            }
        },
        ExprView::Match { scrutinee, arms } => {
            lemma_expr(env, types, scope, *scrutinee);
            if calls(env, names, *scrutinee, callee) {
                lemma_expr_effects(env, types, scope, *scrutinee, callee);
            }
            let (one, result) = expr_checked(env, types, scope, *scrutinee);
            if let Ok(scrutinee) = result {
                lemma_ready(env, types, scope, one);
                lemma_matched_effects(env, one, scope, scrutinee, arms, callee);
            }
        },
        ExprView::Block(block) => lemma_block_effects(env, types, scope, block, callee),
        _ => {},
    }
}

pub proof fn lemma_constructor_effects(
    env: Env,
    types: Types,
    scope: Scope,
    name: Seq<char>,
    variant: Variant,
    args: Seq<ExprView>,
    callee: Seq<char>,
)
    requires
        ready(env, types, scope),
        env.signatures.contains_key(callee),
        args_call(env, scope.dom(), args, callee, 0),
    ensures
        constructor_checked(env, types, scope, name, variant, args).1 matches Ok(info) ==> covered(
            env.signatures[callee],
            info,
        ),
    decreases args, args.len() + 1,
{
    if constructor_error(name, variant, args.len()) is None {
        assert(!args_call(env, scope.dom(), args, callee, 1));
        lemma_expr_effects(env, types, scope, args[0], callee);
    }
}

pub proof fn lemma_call_effects(
    env: Env,
    types: Types,
    scope: Scope,
    name: Seq<char>,
    args: Seq<ExprView>,
    callee: Seq<char>,
)
    requires
        ready(env, types, scope),
        env.signatures.contains_key(callee),
        name == callee || args_call(env, scope.dom(), args, callee, 0),
    ensures
        call_checked(env, types, scope, name, args).1 matches Ok(info) ==> covered(
            env.signatures[callee],
            info,
        ),
    decreases args, args.len() + 1,
{
    if env.signatures.contains_key(name) {
        let signature = env.signatures[name];
        assert(signature_sane(signature, types));
        if args.len() == signature.params.len() {
            lemma_called(signature);
            lemma_args_effects(
                env,
                types,
                scope,
                args,
                signature.params,
                0,
                called(signature),
                callee,
            );
        }
    }
}

pub proof fn lemma_args_effects(
    env: Env,
    types: Types,
    scope: Scope,
    args: Seq<ExprView>,
    params: Seq<int>,
    i: int,
    info: Info,
    callee: Seq<char>,
)
    requires
        ready(env, types, scope),
        env.signatures.contains_key(callee),
        0 <= i,
        args.len() == params.len(),
        forall|k: int| 0 <= k < params.len() ==> types.has(#[trigger] params[k]),
        sane(info, types),
        covered(env.signatures[callee], info) || args_call(env, scope.dom(), args, callee, i),
    ensures
        args_checked(env, types, scope, args, params, i, info).1 matches Ok(all) ==> covered(
            env.signatures[callee],
            all,
        ),
    decreases args, args.len() - i,
{
    if i < args.len() {
        lemma_expr(env, types, scope, args[i]);
        if calls(env, scope.dom(), args[i], callee) {
            lemma_expr_effects(env, types, scope, args[i], callee);
        }
        let (one, result) = expr_checked(env, types, scope, args[i]);
        if let Ok(arg) = result {
            lemma_unified(one, arg.ty, params[i]);
            let (two, outcome) = unified(one, arg.ty, params[i]);
            lemma_kept_twice(types, one, two);
            if outcome is Ok {
                lemma_ready(env, types, scope, two);
                lemma_absorbed(info, arg, two);
                if covered(env.signatures[callee], info) || covered(env.signatures[callee], arg) {
                    lemma_covered(env.signatures[callee], info, arg);
                }
                lemma_args_effects(
                    env,
                    two,
                    scope,
                    args,
                    params,
                    i + 1,
                    absorbed(info, arg),
                    callee,
                );
            }
        }
    }
}

pub proof fn lemma_value_call_effects(
    env: Env,
    types: Types,
    scope: Scope,
    name: Seq<char>,
    slot: int,
    args: Seq<ExprView>,
    callee: Seq<char>,
)
    requires
        ready(env, types, scope),
        env.signatures.contains_key(callee),
        args_call(env, scope.dom(), args, callee, 0),
    ensures
        value_call_checked(env, types, scope, name, slot, args).1 matches Ok(info) ==> covered(
            env.signatures[callee],
            info,
        ),
    decreases args, args.len() + 1,
{
    if let Ok(TypeView::Function(function)) = resolved(
        types,
        slot,
        "function value callee type"@,
    ) {
        if args.len() == function.params.len() {
            let start = effects(function.effectful, Seq::empty());
            lemma_value_args_effects(
                env,
                types,
                scope,
                args,
                function.params,
                0,
                start,
                callee,
            );
        }
    }
}

pub proof fn lemma_value_args_effects(
    env: Env,
    types: Types,
    scope: Scope,
    args: Seq<ExprView>,
    params: Seq<TypeView>,
    i: int,
    info: Info,
    callee: Seq<char>,
)
    requires
        ready(env, types, scope),
        env.signatures.contains_key(callee),
        0 <= i,
        ascending(info.capabilities),
        covered(env.signatures[callee], info) || args_call(env, scope.dom(), args, callee, i),
    ensures
        value_args_checked(env, types, scope, args, params, i, info).1 matches Ok(all) ==> covered(
            env.signatures[callee],
            all,
        ),
    decreases args, args.len() - i,
{
    if i < args.len() {
        lemma_expr(env, types, scope, args[i]);
        if calls(env, scope.dom(), args[i], callee) {
            lemma_expr_effects(env, types, scope, args[i], callee);
        }
        let (one, result) = expr_checked(env, types, scope, args[i]);
        if let Ok(arg) = result {
            lemma_constrained(one, arg.ty, params[i]);
            let (two, outcome) = constrained(one, arg.ty, params[i]);
            lemma_kept_twice(types, one, two);
            if outcome is Ok {
                lemma_ready(env, types, scope, two);
                law_union(info.capabilities, arg.capabilities);
                if covered(env.signatures[callee], info) || covered(env.signatures[callee], arg) {
                    lemma_covered(env.signatures[callee], info, arg);
                }
                lemma_value_args_effects(
                    env,
                    two,
                    scope,
                    args,
                    params,
                    i + 1,
                    absorbed(info, arg),
                    callee,
                );
            }
        }
    }
}

pub proof fn lemma_matched_effects(
    env: Env,
    types: Types,
    scope: Scope,
    scrutinee: Info,
    arms: Seq<MatchArmView>,
    callee: Seq<char>,
)
    requires
        ready(env, types, scope),
        env.signatures.contains_key(callee),
        sane(scrutinee, types),
        covered(env.signatures[callee], scrutinee) || arms_call(env, scope.dom(), arms, callee, 0),
    ensures
        matched(env, types, scope, scrutinee, arms).1 matches Ok(info) ==> covered(
            env.signatures[callee],
            info,
        ),
    decreases arms, arms.len() + 1,
{
    if let Ok(expected) = resolved(types, scrutinee.ty, "match scrutinee type"@) {
        lemma_arms_effects(env, types, scope, arms, 0, expected, None, scrutinee, callee);
    }
}

pub proof fn lemma_arm_effects(
    env: Env,
    types: Types,
    scope: Scope,
    arm: MatchArmView,
    expected: TypeView,
    callee: Seq<char>,
)
    requires
        ready(env, types, scope),
        env.signatures.contains_key(callee),
        arm_calls(env, scope.dom(), arm, callee),
    ensures
        arm_checked(env, types, scope, arm, expected).1 matches Ok(info) ==> covered(
            env.signatures[callee],
            info,
        ),
    decreases arm, 0int,
{
    lemma_pattern(env, types, scope, arm.pattern, expected);
    lemma_pattern_names(env, types, scope, arm.pattern, expected);
    let (one, result) = pattern_checked(env, types, scope, arm.pattern, expected);
    if let Ok(inner) = result {
        lemma_ready(env, types, scope, one);
        lemma_expr_effects(env, one, inner, arm.expr, callee);
    }
}

pub proof fn lemma_arms_effects(
    env: Env,
    types: Types,
    scope: Scope,
    arms: Seq<MatchArmView>,
    i: int,
    expected: TypeView,
    result: Option<int>,
    info: Info,
    callee: Seq<char>,
)
    requires
        ready(env, types, scope),
        env.signatures.contains_key(callee),
        0 <= i,
        result matches Some(id) ==> types.has(id),
        sane(info, types),
        covered(env.signatures[callee], info) || arms_call(env, scope.dom(), arms, callee, i),
    ensures
        arms_checked(env, types, scope, arms, i, expected, result, info).1 matches Ok(all)
            ==> covered(env.signatures[callee], all),
    decreases arms, arms.len() - i,
{
    if i < arms.len() {
        lemma_arm(env, types, scope, arms[i], expected);
        if arm_calls(env, scope.dom(), arms[i], callee) {
            lemma_arm_effects(env, types, scope, arms[i], expected, callee);
        }
        let (one, outcome) = arm_checked(env, types, scope, arms[i], expected);
        if let Ok(arm) = outcome {
            lemma_ready(env, types, scope, one);
            let more = absorbed(info, arm);
            lemma_absorbed(info, arm, one);
            if covered(env.signatures[callee], info) || covered(env.signatures[callee], arm) {
                lemma_covered(env.signatures[callee], info, arm);
            }
            match result {
                None => lemma_arms_effects(
                    env,
                    one,
                    scope,
                    arms,
                    i + 1,
                    expected,
                    Some(arm.ty),
                    more,
                    callee,
                ),
                Some(existing) => {
                    lemma_unified(one, existing, arm.ty);
                    let (two, unification) = unified(one, existing, arm.ty);
                    if unification is Ok {
                        lemma_ready(env, one, scope, two);
                        lemma_arms_effects(
                            env,
                            two,
                            scope,
                            arms,
                            i + 1,
                            expected,
                            result,
                            more,
                            callee,
                        );
                    }
                },
            }
        }
    }
}

pub proof fn lemma_block_effects(
    env: Env,
    types: Types,
    scope: Scope,
    block: BlockView,
    callee: Seq<char>,
)
    requires
        ready(env, types, scope),
        env.signatures.contains_key(callee),
        block_calls(env, scope.dom(), block, callee),
    ensures
        block_checked(env, types, scope, block).1 matches Ok(info) ==> covered(
            env.signatures[callee],
            info,
        ),
    decreases block, 0int,
{
    lemma_items_effects(
        env,
        types,
        scope,
        block.items,
        0,
        None,
        effects(false, Seq::empty()),
        callee,
    );
}

pub proof fn lemma_items_effects(
    env: Env,
    types: Types,
    scope: Scope,
    items: Seq<BlockItemView>,
    i: int,
    last: Option<int>,
    info: Info,
    callee: Seq<char>,
)
    requires
        ready(env, types, scope),
        env.signatures.contains_key(callee),
        0 <= i,
        last matches Some(id) ==> types.has(id),
        ascending(info.capabilities),
        covered(env.signatures[callee], info) || items_call(env, scope.dom(), items, callee, i),
    ensures
        items_checked(env, types, scope, items, i, last, info).1 matches Ok(all) ==> covered(
            env.signatures[callee],
            all,
        ),
    decreases items, items.len() - i,
{
    if i < items.len() {
        lemma_item(env, types, scope, items[i]);
        if item_calls(env, scope.dom(), items[i], callee) {
            lemma_item_effects(env, types, scope, items[i], callee);
        }
        let (one, result) = item_checked(env, types, scope, items[i]);
        if let Ok(item) = result {
            lemma_ready(env, types, scope, one);
            law_union(info.capabilities, item.capabilities);
            let more = absorbed(info, item);
            if covered(env.signatures[callee], info) || covered(env.signatures[callee], item) {
                lemma_covered(env.signatures[callee], info, item);
            }
            match items[i] {
                BlockItemView::Binding { name, .. } => {
                    let inner = scope.insert(name, item.ty);
                    assert(inner.dom() =~= scope.dom().insert(name));
                    lemma_items_effects(env, one, inner, items, i + 1, None, more, callee);
                },
                BlockItemView::Expr(_) => {
                    lemma_items_effects(
                        env,
                        one,
                        scope,
                        items,
                        i + 1,
                        Some(item.ty),
                        more,
                        callee,
                    );
                },
            }
        }
    }
}

pub proof fn lemma_item_effects(
    env: Env,
    types: Types,
    scope: Scope,
    item: BlockItemView,
    callee: Seq<char>,
)
    requires
        ready(env, types, scope),
        env.signatures.contains_key(callee),
        item_calls(env, scope.dom(), item, callee),
    ensures
        item_checked(env, types, scope, item).1 matches Ok(info) ==> covered(
            env.signatures[callee],
            info,
        ),
    decreases item, 0int,
{
    match item {
        BlockItemView::Binding { name, ty, expr } => {
            lemma_expr_effects(env, types, scope, expr, callee);
        },
        BlockItemView::Expr(expr) => lemma_expr_effects(env, types, scope, expr, callee),
    }
}

} // verus!
