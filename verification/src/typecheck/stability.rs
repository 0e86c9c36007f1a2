//! What each step of the checker keeps: no slot is lost, each slot has a type, and a type without
//! open parameters never changes.
use vstd::prelude::*;

use crate::ast::{BlockItemView, BlockView, ExprView, MatchArmView, PatternView, PrimType, TypeView};
use crate::capability::{ascending, law_union};
use crate::slots::scope_within;
use crate::typecheck::checker::{sane, signature_sane, signatures_sane};
use crate::typecheck::model::{
    absorbed, args_checked, arm_checked, arms_checked, block_checked, call_checked, called,
    constrained, constructed, constructor_checked, constructor_error, effects, enum_type,
    expr_checked, field_checked, function_value, item_checked, items_checked, known, known_with,
    literal_checked, literal_error, matched, method_applied, method_of, method_selected,
    operator_name, pattern_checked, pattern_opened, plain, resolved, result_arguments,
    type_validated, unified, value_args_checked, value_call_checked, var_checked, Checked, Env,
    Info, Method, Scope, Types, Variant,
};
use crate::typecheck::substitution::{inferred, is_generic, substituted};

verus! {

/// Each slot has a type.
pub open spec fn all_known(types: Types) -> bool {
    forall|id: int| #[trigger] types.has(id) ==> types.value_of(id) is Some
}

/// The slot has a type without open parameters.
pub open spec fn fixed(types: Types, id: int) -> bool {
    types.value_of(id) matches Some(ty) && !is_generic(ty)
}

/// What holds between the stores before and after a step.
pub open spec fn kept(after: Types, before: Types) -> bool {
    &&& after.wf()
    &&& after.len() >= before.len()
    &&& all_known(before) ==> all_known(after)
    &&& forall|id: int| #[trigger]
        before.has(id) && fixed(before, id) ==> after.value_of(id) == before.value_of(id)
}

/// What holds of a step that returns an expression.
pub open spec fn keeps(step: Checked<Info>, before: Types) -> bool {
    &&& kept(step.0, before)
    &&& step.1 matches Ok(info) ==> sane(info, step.0)
}

/// What a step starts from.
pub open spec fn ready(env: Env, types: Types, scope: Scope) -> bool {
    &&& types.wf()
    &&& signatures_sane(env.signatures, types)
    &&& scope_within(scope, types)
}

pub proof fn lemma_kept_twice(first: Types, second: Types, third: Types)
    requires
        kept(second, first),
        kept(third, second),
    ensures
        kept(third, first),
{
    assert forall|id: int| #[trigger] first.has(id) && fixed(first, id) implies third.value_of(id)
        == first.value_of(id) by {
        assert(second.has(id) && fixed(second, id));
    }
}

pub proof fn lemma_ready(env: Env, types: Types, scope: Scope, after: Types)
    requires
        ready(env, types, scope),
        kept(after, types),
    ensures
        ready(env, after, scope),
{
    assert forall|name: Seq<char>| #[trigger]
        env.signatures.contains_key(name) implies signature_sane(env.signatures[name], after) by {
        assert(signature_sane(env.signatures[name], types));
    }
    assert forall|name: Seq<char>| #[trigger] scope.contains_key(name) implies after.has(
        scope[name],
    ) by {
        assert(types.has(scope[name]));
    }
}

pub proof fn lemma_with(types: Types, ty: TypeView)
    requires
        types.wf(),
    ensures
        kept(types.with(Some(ty)), types),
        types.with(Some(ty)).has(types.len()),
{
    let after = types.with(Some(ty));
    assert forall|i: int| #[trigger] after.has(i) implies after.has(after.roots[i])
        && after.roots[after.roots[i]] == after.roots[i] by {
        if i < types.len() {
            assert(types.has(i));
        }
    }
    assert forall|id: int| #[trigger] types.has(id) implies after.value_of(id)
        == types.value_of(id) by {
        assert(types.has(types.roots[id]));
    }
    if all_known(types) {
        assert forall|id: int| #[trigger] after.has(id) implies after.value_of(id) is Some by {
            if id < types.len() {
                assert(types.has(id));
                assert(types.has(types.roots[id]));
            }
        }
    }
}

pub proof fn lemma_unified(types: Types, a: int, b: int)
    requires
        types.wf(),
        types.has(a),
        types.has(b),
    ensures
        kept(unified(types, a, b).0, types),
{
    let ra = types.roots[a];
    let rb = types.roots[b];
    assert(types.has(ra) && types.has(rb));
    let after = unified(types, a, b).0;
    assert forall|i: int| #[trigger] after.has(i) implies after.has(after.roots[i])
        && after.roots[after.roots[i]] == after.roots[i] by {
        assert(types.has(i));
        assert(types.has(types.roots[i]));
    }
    assert forall|id: int| #[trigger] types.has(id) && fixed(types, id) implies after.value_of(id)
        == types.value_of(id) by {
        assert(types.has(types.roots[id]));
    }
    if all_known(types) {
        assert(types.value_of(a) is Some);
        assert(types.value_of(b) is Some);
        assert forall|id: int| #[trigger] after.has(id) implies after.value_of(id) is Some by {
            assert(types.has(id));
            assert(types.has(types.roots[id]));
        }
    }
}

pub proof fn lemma_constrained(types: Types, id: int, ty: TypeView)
    requires
        types.wf(),
        types.has(id),
    ensures
        kept(constrained(types, id, ty).0, types),
{
    let one = types.with(Some(ty));
    lemma_with(types, ty);
    lemma_unified(one, id, types.len());
    lemma_kept_twice(types, one, constrained(types, id, ty).0);
}

pub proof fn lemma_known_with(types: Types, ty: TypeView, info: Info)
    requires
        types.wf(),
        ascending(info.capabilities),
    ensures
        keeps(known_with(types, ty, info), types),
        keeps(known(types, ty), types),
{
    lemma_with(types, ty);
}

pub proof fn lemma_absorbed(info: Info, more: Info, types: Types)
    requires
        sane(info, types),
    ensures
        sane(absorbed(info, more), types),
{
    law_union(info.capabilities, more.capabilities);
}

pub proof fn lemma_var(env: Env, types: Types, scope: Scope, name: Seq<char>)
    requires
        ready(env, types, scope),
    ensures
        keeps(var_checked(env, types, scope, name), types),
{
    if !scope.contains_key(name) {
        let none = plain(0);
        if env.variants.contains_key(name) {
            lemma_known_with(types, enum_type(env.variants[name], Seq::empty()), none);
        } else if let Some(ty) = function_value(env, types, name) {
            lemma_known_with(types, ty, none);
        }
    }
}

pub proof fn lemma_constructed(types: Types, variant: Variant, arg: Info)
    requires
        types.wf(),
        sane(arg, types),
    ensures
        keeps(constructed(types, variant, arg), types),
{
    let payload = variant.payload->Some_0;
    if let Ok(actual) = resolved(types, arg.ty, "enum variant payload type"@) {
        let found = inferred(payload, actual, Map::empty());
        lemma_constrained(types, arg.ty, substituted(payload, found));
        let (one, _) = constrained(types, arg.ty, substituted(payload, found));
        let ty = enum_type(variant, result_arguments(variant.enum_type_params, found));
        lemma_known_with(one, ty, arg);
        lemma_kept_twice(types, one, one.with(Some(ty)));
    }
}

pub proof fn lemma_field(env: Env, types: Types, receiver: Info, field: Seq<char>)
    requires
        types.wf(),
        sane(receiver, types),
    ensures
        keeps(field_checked(env, types, receiver, field), types),
{
    if let Ok(TypeView::Named(name)) = resolved(types, receiver.ty, "field receiver type"@) {
        lemma_known_with(types, env.structs[name].field.ty, receiver);
    }
}

pub proof fn lemma_literal(env: Env, types: Types, name: Seq<char>, value: Info)
    requires
        types.wf(),
        sane(value, types),
    ensures
        keeps(literal_checked(env, types, name, value), types),
{
    lemma_constrained(types, value.ty, env.structs[name].field.ty);
    let (one, _) = constrained(types, value.ty, env.structs[name].field.ty);
    lemma_known_with(one, TypeView::Named(name), value);
    lemma_kept_twice(types, one, one.with(Some(TypeView::Named(name))));
}

pub proof fn lemma_method_selected(types: Types, receiver: Info, name: Seq<char>, given: nat)
    requires
        types.wf(),
        sane(receiver, types),
    ensures
        kept(method_selected(types, receiver, name, given).0, types),
{
    if let Ok(method) = method_of(name, types.value_of(receiver.ty)) {
        if let Some(prim) = method.operand {
            lemma_constrained(types, receiver.ty, TypeView::Prim(prim));
        }
    }
}

pub proof fn lemma_method_applied(types: Types, receiver: Info, arg: Info, method: Method)
    requires
        types.wf(),
        sane(receiver, types),
        sane(arg, types),
    ensures
        keeps(method_applied(types, receiver, arg, method), types),
{
    let one = match method.operand {
        Some(prim) => {
            lemma_constrained(types, arg.ty, TypeView::Prim(prim));
            constrained(types, arg.ty, TypeView::Prim(prim)).0
        },
        None => {
            lemma_unified(types, receiver.ty, arg.ty);
            unified(types, receiver.ty, arg.ty).0
        },
    };
    lemma_absorbed(receiver, arg, types);
    lemma_known_with(one, TypeView::Prim(method.ret), absorbed(receiver, arg));
    lemma_kept_twice(types, one, one.with(Some(TypeView::Prim(method.ret))));
}

pub proof fn lemma_pattern(
    env: Env,
    types: Types,
    scope: Scope,
    pattern: PatternView,
    expected: TypeView,
)
    requires
        types.wf(),
        scope_within(scope, types),
    ensures
        kept(pattern_checked(env, types, scope, pattern, expected).0, types),
        pattern_checked(env, types, scope, pattern, expected).1 matches Ok(inner) ==> scope_within(
            inner,
            pattern_checked(env, types, scope, pattern, expected).0,
        ),
    decreases pattern,
{
    match pattern {
        PatternView::Var(name) => {
            lemma_with(types, expected);
        },
        PatternView::Variant { name, payload } => {
            if let Ok(Some(inner)) = pattern_opened(env, expected, name, payload is Some) {
                lemma_pattern(env, types, scope, *payload->Some_0, inner);
            }
        },
        _ => {},
    }
}

pub proof fn lemma_expr(env: Env, types: Types, scope: Scope, e: ExprView)
    requires
        ready(env, types, scope),
    ensures
        keeps(expr_checked(env, types, scope, e), types),
    decreases e, 0int,
{
    let none = plain(0);
    match e {
        ExprView::Int(_) => lemma_known_with(types, TypeView::Prim(PrimType::I32), none),
        ExprView::Bool(_) => lemma_known_with(types, TypeView::Prim(PrimType::Bool), none),
        ExprView::String(_) => lemma_known_with(types, TypeView::Prim(PrimType::String), none),
        ExprView::Unit => lemma_known_with(types, TypeView::Prim(PrimType::Unit), none),
        ExprView::Var(name) => lemma_var(env, types, scope, name),
        ExprView::Call { name, args } => {
            if env.variants.contains_key(name) {
                lemma_constructor(env, types, scope, name, env.variants[name], args);
            } else if scope.contains_key(name) {
                lemma_value_call(env, types, scope, name, scope[name], args);
            } else {
                lemma_call(env, types, scope, name, args);
            }
        },
        ExprView::MethodCall { receiver, name, args } => {
            lemma_expr(env, types, scope, *receiver);
            let (one, result) = expr_checked(env, types, scope, *receiver);
            if let Ok(receiver) = result {
                lemma_method_selected(one, receiver, name, args.len());
                let (two, selected) = method_selected(one, receiver, name, args.len());
                lemma_kept_twice(types, one, two);
                if let Ok(method) = selected {
                    lemma_ready(env, types, scope, two);
                    lemma_expr(env, two, scope, args[0]);
                    let (three, result) = expr_checked(env, two, scope, args[0]);
                    lemma_kept_twice(types, two, three);
                    if let Ok(arg) = result {
                        lemma_method_applied(three, receiver, arg, method);
                        let (four, _) = method_applied(three, receiver, arg, method);
                        lemma_kept_twice(types, three, four);
                    }
                }
            }
        },
        ExprView::FieldAccess { receiver, field } => {
            lemma_expr(env, types, scope, *receiver);
            let (one, result) = expr_checked(env, types, scope, *receiver);
            if let Ok(receiver) = result {
                lemma_field(env, one, receiver, field);
                lemma_kept_twice(types, one, field_checked(env, one, receiver, field).0);
            }
        },
        ExprView::StructLiteral { name, field, value } => {
            if literal_error(env, name, field) is None {
                lemma_expr(env, types, scope, *value);
                let (one, result) = expr_checked(env, types, scope, *value);
                if let Ok(value) = result {
                    lemma_literal(env, one, name, value);
                    lemma_kept_twice(types, one, literal_checked(env, one, name, value).0);
                }
            }
        },
        ExprView::Binary { op, left, right } => {
            let name = operator_name(op);
            lemma_expr(env, types, scope, *left);
            let (one, result) = expr_checked(env, types, scope, *left);
            if let Ok(left) = result {
                lemma_method_selected(one, left, name, 1);
                let (two, selected) = method_selected(one, left, name, 1);
                lemma_kept_twice(types, one, two);
                if let Ok(method) = selected {
                    lemma_ready(env, types, scope, two);
                    lemma_expr(env, two, scope, *right);
                    let (three, result) = expr_checked(env, two, scope, *right);
                    lemma_kept_twice(types, two, three);
                    if let Ok(right) = result {
                        lemma_method_applied(three, left, right, method);
                        let (four, _) = method_applied(three, left, right, method);
                        lemma_kept_twice(types, three, four);
                    }
                }
            }
        },
        ExprView::Match { scrutinee, arms } => {
            if arms.len() > 0 {
                lemma_expr(env, types, scope, *scrutinee);
                let (one, result) = expr_checked(env, types, scope, *scrutinee);
                if let Ok(scrutinee) = result {
                    lemma_ready(env, types, scope, one);
                    lemma_matched(env, one, scope, scrutinee, arms);
                    lemma_kept_twice(types, one, matched(env, one, scope, scrutinee, arms).0);
                }
            }
        },
        ExprView::Block(block) => lemma_block(env, types, scope, block),
    }
}

pub proof fn lemma_constructor(
    env: Env,
    types: Types,
    scope: Scope,
    name: Seq<char>,
    variant: Variant,
    args: Seq<ExprView>,
)
    requires
        ready(env, types, scope),
    ensures
        keeps(constructor_checked(env, types, scope, name, variant, args), types),
    decreases args, args.len() + 1,
{
    if constructor_error(name, variant, args.len()) is None {
        lemma_expr(env, types, scope, args[0]);
        let (one, result) = expr_checked(env, types, scope, args[0]);
        if let Ok(arg) = result {
            lemma_constructed(one, variant, arg);
            lemma_kept_twice(types, one, constructed(one, variant, arg).0);
        }
    }
}

pub proof fn lemma_call(
    env: Env,
    types: Types,
    scope: Scope,
    name: Seq<char>,
    args: Seq<ExprView>,
)
    requires
        ready(env, types, scope),
    ensures
        keeps(call_checked(env, types, scope, name, args), types),
    decreases args, args.len() + 1,
{
    if env.signatures.contains_key(name) {
        let signature = env.signatures[name];
        assert(signature_sane(signature, types));
        if args.len() == signature.params.len() {
            lemma_args(env, types, scope, args, signature.params, 0, called(signature));
        }
    }
}

pub proof fn lemma_args(
    env: Env,
    types: Types,
    scope: Scope,
    args: Seq<ExprView>,
    params: Seq<int>,
    i: int,
    info: Info,
)
    requires
        ready(env, types, scope),
        0 <= i,
        args.len() == params.len(),
        forall|k: int| 0 <= k < params.len() ==> types.has(#[trigger] params[k]),
        sane(info, types),
    ensures
        keeps(args_checked(env, types, scope, args, params, i, info), types),
    decreases args, args.len() - i,
{
    if i < args.len() {
        lemma_expr(env, types, scope, args[i]);
        let (one, result) = expr_checked(env, types, scope, args[i]);
        if let Ok(arg) = result {
            lemma_unified(one, arg.ty, params[i]);
            let (two, outcome) = unified(one, arg.ty, params[i]);
            lemma_kept_twice(types, one, two);
            if outcome is Ok {
                lemma_ready(env, types, scope, two);
                lemma_absorbed(info, arg, two);
                let more = absorbed(info, arg);
                lemma_args(env, two, scope, args, params, i + 1, more);
                lemma_kept_twice(
                    types,
                    two,
                    args_checked(env, two, scope, args, params, i + 1, more).0,
                );
            }
        }
    }
}

pub proof fn lemma_value_call(
    env: Env,
    types: Types,
    scope: Scope,
    name: Seq<char>,
    callee: int,
    args: Seq<ExprView>,
)
    requires
        ready(env, types, scope),
    ensures
        keeps(value_call_checked(env, types, scope, name, callee, args), types),
    decreases args, args.len() + 1,
{
    if let Ok(TypeView::Function(function)) = resolved(
        types,
        callee,
        "function value callee type"@,
    ) {
        if args.len() == function.params.len() {
            let start = effects(function.effectful, Seq::empty());
            lemma_value_args(env, types, scope, args, function.params, 0, start);
            let (one, result) = value_args_checked(
                env,
                types,
                scope,
                args,
                function.params,
                0,
                start,
            );
            if let Ok(info) = result {
                lemma_known_with(one, *function.ret, info);
                lemma_kept_twice(types, one, one.with(Some(*function.ret)));
            }
        }
    }
}

pub proof fn lemma_value_args(
    env: Env,
    types: Types,
    scope: Scope,
    args: Seq<ExprView>,
    params: Seq<TypeView>,
    i: int,
    info: Info,
)
    requires
        ready(env, types, scope),
        0 <= i,
        ascending(info.capabilities),
    ensures
        kept(value_args_checked(env, types, scope, args, params, i, info).0, types),
        value_args_checked(env, types, scope, args, params, i, info).1 matches Ok(all) ==> ascending(
            all.capabilities,
        ),
    decreases args, args.len() - i,
{
    if i < args.len() {
        lemma_expr(env, types, scope, args[i]);
        let (one, result) = expr_checked(env, types, scope, args[i]);
        if let Ok(arg) = result {
            lemma_constrained(one, arg.ty, params[i]);
            let (two, outcome) = constrained(one, arg.ty, params[i]);
            lemma_kept_twice(types, one, two);
            if outcome is Ok {
                lemma_ready(env, types, scope, two);
                law_union(info.capabilities, arg.capabilities);
                let more = absorbed(info, arg);
                lemma_value_args(env, two, scope, args, params, i + 1, more);
                lemma_kept_twice(
                    types,
                    two,
                    value_args_checked(env, two, scope, args, params, i + 1, more).0,
                );
            }
        }
    }
}

pub proof fn lemma_matched(
    env: Env,
    types: Types,
    scope: Scope,
    scrutinee: Info,
    arms: Seq<MatchArmView>,
)
    requires
        ready(env, types, scope),
        sane(scrutinee, types),
    ensures
        keeps(matched(env, types, scope, scrutinee, arms), types),
    decreases arms, arms.len() + 1,
{
    if let Ok(expected) = resolved(types, scrutinee.ty, "match scrutinee type"@) {
        lemma_arms(env, types, scope, arms, 0, expected, None, scrutinee);
    }
}

pub proof fn lemma_arm(
    env: Env,
    types: Types,
    scope: Scope,
    arm: MatchArmView,
    expected: TypeView,
)
    requires
        ready(env, types, scope),
    ensures
        keeps(arm_checked(env, types, scope, arm, expected), types),
    decreases arm, 0int,
{
    lemma_pattern(env, types, scope, arm.pattern, expected);
    let (one, result) = pattern_checked(env, types, scope, arm.pattern, expected);
    if let Ok(inner) = result {
        lemma_ready(env, types, scope, one);
        lemma_expr(env, one, inner, arm.expr);
        lemma_kept_twice(types, one, expr_checked(env, one, inner, arm.expr).0);
    }
}

pub proof fn lemma_arms(
    env: Env,
    types: Types,
    scope: Scope,
    arms: Seq<MatchArmView>,
    i: int,
    expected: TypeView,
    result: Option<int>,
    info: Info,
)
    requires
        ready(env, types, scope),
        0 <= i,
        result matches Some(id) ==> types.has(id),
        sane(info, types),
    ensures
        keeps(arms_checked(env, types, scope, arms, i, expected, result, info), types),
    decreases arms, arms.len() - i,
{
    if i < arms.len() {
        lemma_arm(env, types, scope, arms[i], expected);
        let (one, outcome) = arm_checked(env, types, scope, arms[i], expected);
        if let Ok(arm) = outcome {
            lemma_ready(env, types, scope, one);
            let more = absorbed(info, arm);
            lemma_absorbed(info, arm, one);
            match result {
                None => {
                    lemma_arms(env, one, scope, arms, i + 1, expected, Some(arm.ty), more);
                    lemma_kept_twice(
                        types,
                        one,
                        arms_checked(
                            env,
                            one,
                            scope,
                            arms,
                            i + 1,
                            expected,
                            Some(arm.ty),
                            more,
                        ).0,
                    );
                },
                Some(existing) => {
                    lemma_unified(one, existing, arm.ty);
                    let (two, unification) = unified(one, existing, arm.ty);
                    lemma_kept_twice(types, one, two);
                    if unification is Ok {
                        lemma_ready(env, one, scope, two);
                        lemma_arms(env, two, scope, arms, i + 1, expected, result, more);
                        lemma_kept_twice(
                            types,
                            two,
                            arms_checked(env, two, scope, arms, i + 1, expected, result, more).0,
                        );
                    }
                },
            }
        }
    }
}

pub proof fn lemma_block(env: Env, types: Types, scope: Scope, block: BlockView)
    requires
        ready(env, types, scope),
    ensures
        keeps(block_checked(env, types, scope, block), types),
    decreases block, 0int,
{
    lemma_items(env, types, scope, block.items, 0, None, effects(false, Seq::empty()));
}

pub proof fn lemma_items(
    env: Env,
    types: Types,
    scope: Scope,
    items: Seq<BlockItemView>,
    i: int,
    last: Option<int>,
    info: Info,
)
    requires
        ready(env, types, scope),
        0 <= i,
        last matches Some(id) ==> types.has(id),
        ascending(info.capabilities),
    ensures
        keeps(items_checked(env, types, scope, items, i, last, info), types),
    decreases items, items.len() - i,
{
    if i < items.len() {
        lemma_item(env, types, scope, items[i]);
        let (one, result) = item_checked(env, types, scope, items[i]);
        if let Ok(item) = result {
            lemma_ready(env, types, scope, one);
            law_union(info.capabilities, item.capabilities);
            let more = absorbed(info, item);
            match items[i] {
                BlockItemView::Binding { name, .. } => {
                    let inner = scope.insert(name, item.ty);
                    lemma_items(env, one, inner, items, i + 1, None, more);
                    lemma_kept_twice(
                        types,
                        one,
                        items_checked(env, one, inner, items, i + 1, None, more).0,
                    );
                },
                BlockItemView::Expr(_) => {
                    lemma_items(env, one, scope, items, i + 1, Some(item.ty), more);
                    lemma_kept_twice(
                        types,
                        one,
                        items_checked(env, one, scope, items, i + 1, Some(item.ty), more).0,
                    );
                },
            }
        }
    } else if last is None {
        lemma_known_with(types, TypeView::Prim(PrimType::Unit), info);
    }
}

pub proof fn lemma_item(env: Env, types: Types, scope: Scope, item: BlockItemView)
    requires
        ready(env, types, scope),
    ensures
        keeps(item_checked(env, types, scope, item), types),
    decreases item, 0int,
{
    match item {
        BlockItemView::Binding { name, ty, expr } => {
            if !scope.contains_key(name) {
                lemma_expr(env, types, scope, expr);
                let (one, result) = expr_checked(env, types, scope, expr);
                if let Ok(info) = result {
                    if let Some(ty) = ty {
                        if type_validated(env, ty, Seq::empty()) is Ok {
                            lemma_constrained(one, info.ty, ty);
                            lemma_kept_twice(types, one, constrained(one, info.ty, ty).0);
                        }
                    }
                }
            }
        },
        BlockItemView::Expr(expr) => lemma_expr(env, types, scope, expr),
    }
}

} // verus!
