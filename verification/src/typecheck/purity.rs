//! An expression has effects exactly where a call in it has: the call of a function with effects,
//! or of a value whose type, where the call is reached, is that of such a function.
use vstd::prelude::*;

use crate::ast::{
    functions_of, BlockItemView, BlockView, ExprView, FunctionView, MatchArmView, ProgramView,
    TypeView,
};
use crate::platform::PlatformView;
use crate::typecheck::laws::{law_annotations, law_registered, signed};
use crate::typecheck::model::{
    absorbed, args_checked, arm_checked, arms_checked, block_checked, call_checked, called,
    constrained, constructor_checked, effects, expr_checked, item_checked, items_checked, matched,
    method_selected, operator_name, pattern_checked, unified, value_args_checked,
    value_call_checked, Env, Info, Scope, Types, Variant,
};
use crate::typecheck::program::{
    function_checked, functions_checked, params_scoped, program_checked, program_registered,
    CheckMode, Known, Needs,
};
use crate::typecheck::typed::TypedProgramView;

verus! {

/// The slot has the type of a function with effects.
pub open spec fn effectful_slot(types: Types, id: int) -> bool {
    types.value_of(id) matches Some(TypeView::Function(function)) && function.effectful
}

/// The parameters of the function whose type the slot has.
pub open spec fn slot_params(types: Types, id: int) -> Seq<TypeView> {
    types.value_of(id)->Some_0->Function_0.params
}

/// A call in the expression has effects, where the expression is reached with what is known of the
/// types and with the scope.
pub open spec fn effect_in(env: Env, types: Types, scope: Scope, e: ExprView) -> bool
    decreases e, 0int,
{
    match e {
        ExprView::Call { name, args } => if env.variants.contains_key(name) {
            payload_effect(env, types, scope, args)
        } else if scope.contains_key(name) {
            effectful_slot(types, scope[name]) || value_args_effect(
                env,
                types,
                scope,
                args,
                slot_params(types, scope[name]),
                0,
            )
        } else {
            env.signatures[name].effectful || args_effect(
                env,
                types,
                scope,
                args,
                env.signatures[name].params,
                0,
            )
        },
        ExprView::MethodCall { receiver, name, args } => {
            let (one, result) = expr_checked(env, types, scope, *receiver);
            let (two, _) = method_selected(one, result->Ok_0, name, args.len());
            effect_in(env, types, scope, *receiver) || payload_effect(env, two, scope, args)
        },
        ExprView::FieldAccess { receiver, .. } => effect_in(env, types, scope, *receiver),
        ExprView::StructLiteral { value, .. } => effect_in(env, types, scope, *value),
        ExprView::Binary { op, left, right } => {
            let (one, result) = expr_checked(env, types, scope, *left);
            let (two, _) = method_selected(one, result->Ok_0, operator_name(op), 1);
            effect_in(env, types, scope, *left) || effect_in(env, two, scope, *right)
        },
        ExprView::Match { scrutinee, arms } => {
            let (one, result) = expr_checked(env, types, scope, *scrutinee);
            let expected = one.value_of(result->Ok_0.ty)->Some_0;
            effect_in(env, types, scope, *scrutinee) || arms_effect(
                env,
                one,
                scope,
                arms,
                0,
                expected,
                None,
            )
        },
        ExprView::Block(block) => block_effect(env, types, scope, block),
        _ => false,
    }
}

/// A call in the one argument has effects.
pub open spec fn payload_effect(env: Env, types: Types, scope: Scope, args: Seq<ExprView>) -> bool
    decreases args, args.len() + 1,
{
    args.len() == 1 && effect_in(env, types, scope, args[0])
}

/// A call in an argument of a function from `i` on has effects.
pub open spec fn args_effect(
    env: Env,
    types: Types,
    scope: Scope,
    args: Seq<ExprView>,
    params: Seq<int>,
    i: int,
) -> bool
    decreases args, args.len() - i,
{
    if i < 0 || i >= args.len() {
        false
    } else {
        let (one, result) = expr_checked(env, types, scope, args[i]);
        let (two, _) = unified(one, result->Ok_0.ty, params[i]);
        effect_in(env, types, scope, args[i]) || args_effect(env, two, scope, args, params, i + 1)
    }
}

/// A call in an argument of a function value from `i` on has effects.
pub open spec fn value_args_effect(
    env: Env,
    types: Types,
    scope: Scope,
    args: Seq<ExprView>,
    params: Seq<TypeView>,
    i: int,
) -> bool
    decreases args, args.len() - i,
{
    if i < 0 || i >= args.len() {
        false
    } else {
        let (one, result) = expr_checked(env, types, scope, args[i]);
        let (two, _) = constrained(one, result->Ok_0.ty, params[i]);
        effect_in(env, types, scope, args[i]) || value_args_effect(
            env,
            two,
            scope,
            args,
            params,
            i + 1,
        )
    }
}

/// A call in an arm for values of the type has effects.
pub open spec fn arm_effect(
    env: Env,
    types: Types,
    scope: Scope,
    arm: MatchArmView,
    expected: TypeView,
) -> bool
    decreases arm, 0int,
{
    let (one, inner) = pattern_checked(env, types, scope, arm.pattern, expected);
    effect_in(env, one, inner->Ok_0, arm.expr)
}

/// A call in an arm from `i` on has effects; `result` is the slot of the arms before.
pub open spec fn arms_effect(
    env: Env,
    types: Types,
    scope: Scope,
    arms: Seq<MatchArmView>,
    i: int,
    expected: TypeView,
    result: Option<int>,
) -> bool
    decreases arms, arms.len() - i,
{
    if i < 0 || i >= arms.len() {
        false
    } else {
        let (one, outcome) = arm_checked(env, types, scope, arms[i], expected);
        let arm = outcome->Ok_0.ty;
        let (two, slot) = match result {
            None => (one, arm),
            Some(existing) => (unified(one, existing, arm).0, existing),
        };
        arm_effect(env, types, scope, arms[i], expected) || arms_effect(
            env,
            two,
            scope,
            arms,
            i + 1,
            expected,
            Some(slot),
        )
    }
}

pub open spec fn block_effect(env: Env, types: Types, scope: Scope, block: BlockView) -> bool
    decreases block, 0int,
{
    items_effect(env, types, scope, block.items, 0)
}

pub open spec fn item_effect(env: Env, types: Types, scope: Scope, item: BlockItemView) -> bool
    decreases item, 0int,
{
    match item {
        BlockItemView::Binding { expr, .. } => effect_in(env, types, scope, expr),
        BlockItemView::Expr(expr) => effect_in(env, types, scope, expr),
    }
}

/// A call in an item from `i` on has effects.
pub open spec fn items_effect(
    env: Env,
    types: Types,
    scope: Scope,
    items: Seq<BlockItemView>,
    i: int,
) -> bool
    decreases items, items.len() - i,
{
    if i < 0 || i >= items.len() {
        false
    } else {
        let (one, result) = item_checked(env, types, scope, items[i]);
        let inner = match items[i] {
            BlockItemView::Binding { name, .. } => scope.insert(name, result->Ok_0.ty),
            BlockItemView::Expr(_) => scope,
        };
        item_effect(env, types, scope, items[i]) || items_effect(env, one, inner, items, i + 1)
    }
}

/// An accepted expression has effects exactly where a call in it has.
pub proof fn law_expr_effect(env: Env, types: Types, scope: Scope, e: ExprView)
    ensures
        expr_checked(env, types, scope, e).1 matches Ok(info) ==> info.effectful == effect_in(
            env,
            types,
            scope,
            e,
        ),
    decreases e, 0int,
{
    match e {
        ExprView::Call { name, args } => {
            if env.variants.contains_key(name) {
                lemma_constructor(env, types, scope, name, env.variants[name], args);
            } else if scope.contains_key(name) {
                lemma_value_call(env, types, scope, name, scope[name], args);
            } else {
                lemma_call(env, types, scope, name, args);
            }
        },
        ExprView::MethodCall { receiver, name, args } => {
            law_expr_effect(env, types, scope, *receiver);
            let (one, result) = expr_checked(env, types, scope, *receiver);
            let (two, selected) = method_selected(one, result->Ok_0, name, args.len());
            if result is Ok && selected is Ok {
                assert(args.len() == 1);
                law_expr_effect(env, two, scope, args[0]);
                assert(payload_effect(env, two, scope, args) == effect_in(
                    env,
                    two,
                    scope,
                    args[0],
                ));
            }
        },
        ExprView::FieldAccess { receiver, .. } => law_expr_effect(env, types, scope, *receiver),
        ExprView::StructLiteral { value, .. } => law_expr_effect(env, types, scope, *value),
        ExprView::Binary { op, left, right } => {
            law_expr_effect(env, types, scope, *left);
            let (one, result) = expr_checked(env, types, scope, *left);
            let (two, _) = method_selected(one, result->Ok_0, operator_name(op), 1);
            law_expr_effect(env, two, scope, *right);
        },
        ExprView::Match { scrutinee, arms } => {
            law_expr_effect(env, types, scope, *scrutinee);
            let (one, result) = expr_checked(env, types, scope, *scrutinee);
            lemma_matched(env, one, scope, result->Ok_0, arms);
        },
        ExprView::Block(block) => lemma_block(env, types, scope, block),
        _ => {},
    }
}

proof fn lemma_constructor(
    env: Env,
    types: Types,
    scope: Scope,
    name: Seq<char>,
    variant: Variant,
    args: Seq<ExprView>,
)
    ensures
        constructor_checked(env, types, scope, name, variant, args).1 matches Ok(info)
            ==> info.effectful == payload_effect(env, types, scope, args),
    decreases args, args.len() + 1,
{
    if args.len() == 1 {
        law_expr_effect(env, types, scope, args[0]);
    }
}

proof fn lemma_call(
    env: Env,
    types: Types,
    scope: Scope,
    name: Seq<char>,
    args: Seq<ExprView>,
)
    ensures
        call_checked(env, types, scope, name, args).1 matches Ok(info) ==> info.effectful == (
        env.signatures[name].effectful || args_effect(
            env,
            types,
            scope,
            args,
            env.signatures[name].params,
            0,
        )),
    decreases args, args.len() + 1,
{
    let signature = env.signatures[name];
    lemma_args(env, types, scope, args, signature.params, 0, called(signature));
}

proof fn lemma_args(
    env: Env,
    types: Types,
    scope: Scope,
    args: Seq<ExprView>,
    params: Seq<int>,
    i: int,
    info: Info,
)
    requires
        0 <= i,
    ensures
        args_checked(env, types, scope, args, params, i, info).1 matches Ok(all) ==> all.effectful
            == (info.effectful || args_effect(env, types, scope, args, params, i)),
    decreases args, args.len() - i,
{
    if i < args.len() {
        law_expr_effect(env, types, scope, args[i]);
        let (one, result) = expr_checked(env, types, scope, args[i]);
        if let Ok(arg) = result {
            let (two, _) = unified(one, arg.ty, params[i]);
            lemma_args(env, two, scope, args, params, i + 1, absorbed(info, arg));
        }
    }
}

proof fn lemma_value_call(
    env: Env,
    types: Types,
    scope: Scope,
    name: Seq<char>,
    slot: int,
    args: Seq<ExprView>,
)
    ensures
        value_call_checked(env, types, scope, name, slot, args).1 matches Ok(info)
            ==> info.effectful == (effectful_slot(types, slot) || value_args_effect(
            env,
            types,
            scope,
            args,
            slot_params(types, slot),
            0,
        )),
    decreases args, args.len() + 1,
{
    if let Some(TypeView::Function(function)) = types.value_of(slot) {
        let start = effects(function.effectful, Seq::empty());
        lemma_value_args(env, types, scope, args, function.params, 0, start);
    }
}

proof fn lemma_value_args(
    env: Env,
    types: Types,
    scope: Scope,
    args: Seq<ExprView>,
    params: Seq<TypeView>,
    i: int,
    info: Info,
)
    requires
        0 <= i,
    ensures
        value_args_checked(env, types, scope, args, params, i, info).1 matches Ok(all)
            ==> all.effectful == (info.effectful || value_args_effect(
            env,
            types,
            scope,
            args,
            params,
            i,
        )),
    decreases args, args.len() - i,
{
    if i < args.len() {
        law_expr_effect(env, types, scope, args[i]);
        let (one, result) = expr_checked(env, types, scope, args[i]);
        if let Ok(arg) = result {
            let (two, _) = constrained(one, arg.ty, params[i]);
            lemma_value_args(env, two, scope, args, params, i + 1, absorbed(info, arg));
        }
    }
}

proof fn lemma_matched(
    env: Env,
    types: Types,
    scope: Scope,
    scrutinee: Info,
    arms: Seq<MatchArmView>,
)
    ensures
        matched(env, types, scope, scrutinee, arms).1 matches Ok(info) ==> info.effectful == (
        scrutinee.effectful || arms_effect(
            env,
            types,
            scope,
            arms,
            0,
            types.value_of(scrutinee.ty)->Some_0,
            None,
        )),
    decreases arms, arms.len() + 1,
{
    let expected = types.value_of(scrutinee.ty)->Some_0;
    lemma_arms(env, types, scope, arms, 0, expected, None, scrutinee);
}

proof fn lemma_arm(
    env: Env,
    types: Types,
    scope: Scope,
    arm: MatchArmView,
    expected: TypeView,
)
    ensures
        arm_checked(env, types, scope, arm, expected).1 matches Ok(info) ==> info.effectful
            == arm_effect(env, types, scope, arm, expected),
    decreases arm, 0int,
{
    let (one, inner) = pattern_checked(env, types, scope, arm.pattern, expected);
    law_expr_effect(env, one, inner->Ok_0, arm.expr);
}

proof fn lemma_arms(
    env: Env,
    types: Types,
    scope: Scope,
    arms: Seq<MatchArmView>,
    i: int,
    expected: TypeView,
    result: Option<int>,
    info: Info,
)
    requires
        0 <= i,
    ensures
        arms_checked(env, types, scope, arms, i, expected, result, info).1 matches Ok(all)
            ==> all.effectful == (info.effectful || arms_effect(
            env,
            types,
            scope,
            arms,
            i,
            expected,
            result,
        )),
    decreases arms, arms.len() - i,
{
    if i < arms.len() {
        lemma_arm(env, types, scope, arms[i], expected);
        let (one, outcome) = arm_checked(env, types, scope, arms[i], expected);
        if let Ok(arm) = outcome {
            let more = absorbed(info, arm);
            match result {
                None => {
                    lemma_arms(env, one, scope, arms, i + 1, expected, Some(arm.ty), more);
                },
                Some(existing) => {
                    let (two, _) = unified(one, existing, arm.ty);
                    lemma_arms(env, two, scope, arms, i + 1, expected, result, more);
                },
            }
        }
    }
}

pub proof fn lemma_block(env: Env, types: Types, scope: Scope, block: BlockView)
    ensures
        block_checked(env, types, scope, block).1 matches Ok(info) ==> info.effectful
            == block_effect(env, types, scope, block),
    decreases block, 0int,
{
    let start = effects(false, Seq::empty());
    lemma_items(env, types, scope, block.items, 0, None, start);
}

proof fn lemma_items(
    env: Env,
    types: Types,
    scope: Scope,
    items: Seq<BlockItemView>,
    i: int,
    last: Option<int>,
    info: Info,
)
    requires
        0 <= i,
    ensures
        items_checked(env, types, scope, items, i, last, info).1 matches Ok(all) ==> all.effectful
            == (info.effectful || items_effect(env, types, scope, items, i)),
    decreases items, items.len() - i,
{
    if i < items.len() {
        lemma_item(env, types, scope, items[i]);
        let (one, result) = item_checked(env, types, scope, items[i]);
        if let Ok(item) = result {
            let more = absorbed(info, item);
            match items[i] {
                BlockItemView::Binding { name, .. } => {
                    lemma_items(
                        env,
                        one,
                        scope.insert(name, item.ty),
                        items,
                        i + 1,
                        None,
                        more,
                    );
                },
                BlockItemView::Expr(_) => {
                    lemma_items(env, one, scope, items, i + 1, Some(item.ty), more);
                },
            }
        }
    }
}

proof fn lemma_item(env: Env, types: Types, scope: Scope, item: BlockItemView)
    ensures
        item_checked(env, types, scope, item).1 matches Ok(info) ==> info.effectful
            == item_effect(env, types, scope, item),
    decreases item, 0int,
{
    match item {
        BlockItemView::Binding { expr, .. } => law_expr_effect(env, types, scope, expr),
        BlockItemView::Expr(expr) => law_expr_effect(env, types, scope, expr),
    }
}

/// What is known of the types when the checker reaches the `k`-th function, after those from `i`
/// on.
pub open spec fn types_before(
    env: Env,
    types: Types,
    functions: Seq<FunctionView>,
    i: int,
    k: int,
) -> Types
    decreases k - i,
{
    if i >= k {
        types
    } else {
        types_before(env, function_checked(env, types, functions[i]).0, functions, i + 1, k)
    }
}

/// A call in the body of the function has effects.
pub open spec fn body_effect(env: Env, types: Types, function: FunctionView) -> bool {
    let params = env.signatures[function.name].params;
    block_effect(
        env,
        types,
        params_scoped(Map::empty(), function, params, 0)->Ok_0,
        function.body,
    )
}

proof fn lemma_functions(
    known: Known,
    types: Types,
    functions: Seq<FunctionView>,
    i: int,
    needs: Needs,
    k: int,
)
    requires
        0 <= i <= k < functions.len(),
        functions_checked(known.env, types, functions, i, needs).1 is Ok,
    ensures
        body_effect(known.env, types_before(known.env, types, functions, i, k), functions[k])
            ==> known.env.signatures[functions[k].name].effectful,
    decreases k - i,
{
    let (one, result) = function_checked(known.env, types, functions[i]);
    if i < k {
        let more = needs.insert(functions[i].name, result->Ok_0);
        lemma_functions(known, one, functions, i + 1, more, k);
    } else {
        let params = known.env.signatures[functions[k].name].params;
        let scope = params_scoped(Map::empty(), functions[k], params, 0)->Ok_0;
        lemma_block(known.env, types, scope, functions[k].body);
    }
}

/// A function of an accepted program that is not marked makes no call with effects: neither of a
/// function, nor of a value, by whatever name the value is called.
pub proof fn law_pure(
    program: ProgramView,
    platform: PlatformView,
    mode: CheckMode,
    typed: TypedProgramView,
    k: int,
)
    requires
        program_checked(program, platform, mode) == Ok::<TypedProgramView, Seq<char>>(typed),
        0 <= k < functions_of(program).len(),
        !typed.functions[k].effectful,
    ensures
        ({
            let known = program_registered(program, platform).0;
            let functions = functions_of(program);
            let types = types_before(known.env, known.types, functions, 0, k);
            !body_effect(known.env, types, functions[k])
        }),
{
    let known = program_registered(program, platform).0;
    let functions = functions_of(program);
    law_registered(program, platform);
    law_annotations(program, platform, mode, typed);
    assert(signed(known, functions[k]));
    assert(functions[k] == functions_of(program)[k]);
    lemma_functions(known, known.types, functions, 0, Map::empty(), k);
}

} // verus!
