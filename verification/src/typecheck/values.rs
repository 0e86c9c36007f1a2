//! A call of a function value with effects makes the expressions around it effectful.
use vstd::prelude::*;

use crate::ast::{
    functions_of, BlockItemView, BlockView, ExprView, FunctionView, MatchArmView, PatternView,
    ProgramView, TypeView,
};
use crate::capability::{ascending, law_union};
use crate::platform::PlatformView;
use crate::slots::scope_within;
use crate::typecheck::checker::{sane, signature_sane};
use crate::typecheck::effects::{lemma_pattern_names, pattern_names, Names};
use crate::typecheck::laws::{
    annotated_slot, law_annotations, law_registered, law_valid_closed, lemma_function_checked,
    settled, signed,
};
use crate::typecheck::model::{
    absorbed, annotated, args_checked, arm_checked, arms_checked, block_checked, call_checked,
    called, constrained, constructor_checked, constructor_error, effects, expr_checked,
    item_checked, items_checked, matched, method_selected, operator_name, pattern_checked,
    pattern_opened, unified, value_args_checked, value_call_checked, Env, Info, Scope, Types,
    Variant,
};
use crate::typecheck::program::{
    function_checked, functions_checked, params_scoped, program_checked, program_registered,
    CheckMode, Known, Needs,
};
use crate::typecheck::soundness::{
    arrows_of, env_typed, has_type, lemma_arrows_of, lemma_expr_typed, lemma_params_typed,
    lemma_pattern_typed, lemma_type_kept, lemma_typed_kept, param_types, scope_typed, typed_state,
};
use crate::typecheck::stability::{
    all_known, fixed, kept, lemma_absorbed, lemma_arm, lemma_constrained, lemma_expr, lemma_item,
    lemma_kept_twice, lemma_method_selected, lemma_pattern, lemma_ready, lemma_unified, lemma_with,
    ready,
};
use crate::typecheck::substitution::is_generic;
use crate::typecheck::typed::TypedProgramView;
use crate::typecheck::typing::{expr_typing, pattern_typing, Arrows, Binding, Locals, Typing};

verus! {

/// The name has the type of a function with effects.
pub open spec fn effectful_value(locals: Locals, name: Seq<char>) -> bool {
    locals.contains_key(name) && (locals[name] matches TypeView::Function(function)
        && function.effectful)
}

/// What is told of names before they are looked up: the types of the functions, the types of the
/// names in scope, as far as annotations and patterns tell them, and all the names in scope.
pub struct Told {
    pub arrows: Arrows,
    pub locals: Locals,
    pub names: Names,
}

/// The type of the scrutinee of a match, where the type system tells it.
pub open spec fn scrutinee_type(env: Env, told: Told, scrutinee: ExprView) -> Option<TypeView> {
    if told.locals.dom() == told.names {
        match expr_typing(env, told.arrows, told.locals, scrutinee) {
            Typing::Has(ty) => Some(ty),
            _ => None,
        }
    } else {
        None
    }
}

/// What is told in an arm for values of the type, with the names that its pattern binds.
pub open spec fn told_in_arm(
    env: Env,
    told: Told,
    expected: Option<TypeView>,
    pattern: PatternView,
) -> Told {
    let bound = match expected {
        Some(ty) => pattern_typing(env, told.locals, pattern, ty),
        None => Binding::Open,
    };
    match bound {
        Binding::Binds(inner) => Told { arrows: told.arrows, locals: inner, names: inner.dom() },
        _ => Told {
            arrows: told.arrows,
            locals: told.locals,
            names: pattern_names(pattern, told.names),
        },
    }
}

/// The expression calls a function value with effects, by a name whose type is told: a parameter,
/// a binding, or a name that a pattern binds.
/// `told` is what is told of the names in scope.
pub open spec fn calls_value(env: Env, told: Told, e: ExprView) -> bool
    decreases e, 0int,
{
    match e {
        ExprView::Call { name, args } => {
            ||| !env.variants.contains_key(name) && effectful_value(told.locals, name)
            ||| args_call_value(env, told, args, 0)
        },
        ExprView::MethodCall { receiver, args, .. } => calls_value(env, told, *receiver)
            || args_call_value(env, told, args, 0),
        ExprView::FieldAccess { receiver, .. } => calls_value(env, told, *receiver),
        ExprView::StructLiteral { value, .. } => calls_value(env, told, *value),
        ExprView::Binary { left, right, .. } => calls_value(env, told, *left) || calls_value(
            env,
            told,
            *right,
        ),
        ExprView::Match { scrutinee, arms } => calls_value(env, told, *scrutinee)
            || arms_call_value(env, told, scrutinee_type(env, told, *scrutinee), arms, 0),
        ExprView::Block(block) => block_calls_value(env, told, block),
        _ => false,
    }
}

/// One of the arguments from `i` on calls such a value.
pub open spec fn args_call_value(env: Env, told: Told, args: Seq<ExprView>, i: int) -> bool
    decreases args, args.len() - i,
{
    if i < 0 || i >= args.len() {
        false
    } else {
        calls_value(env, told, args[i]) || args_call_value(env, told, args, i + 1)
    }
}

pub open spec fn arm_calls_value(
    env: Env,
    told: Told,
    expected: Option<TypeView>,
    arm: MatchArmView,
) -> bool
    decreases arm, 0int,
{
    calls_value(env, told_in_arm(env, told, expected, arm.pattern), arm.expr)
}

/// One of the arms from `i` on calls such a value.
pub open spec fn arms_call_value(
    env: Env,
    told: Told,
    expected: Option<TypeView>,
    arms: Seq<MatchArmView>,
    i: int,
) -> bool
    decreases arms, arms.len() - i,
{
    if i < 0 || i >= arms.len() {
        false
    } else {
        arm_calls_value(env, told, expected, arms[i]) || arms_call_value(
            env,
            told,
            expected,
            arms,
            i + 1,
        )
    }
}

pub open spec fn block_calls_value(env: Env, told: Told, block: BlockView) -> bool
    decreases block, 0int,
{
    items_call_value(env, told, block.items, 0)
}

pub open spec fn item_calls_value(env: Env, told: Told, item: BlockItemView) -> bool
    decreases item, 0int,
{
    match item {
        BlockItemView::Binding { expr, .. } => calls_value(env, told, expr),
        BlockItemView::Expr(expr) => calls_value(env, told, expr),
    }
}

/// What is told after an item.
pub open spec fn told_after(told: Told, item: BlockItemView) -> Told {
    match item {
        BlockItemView::Binding { name, ty, .. } => Told {
            arrows: told.arrows,
            locals: match ty {
                Some(ty) => told.locals.insert(name, ty),
                None => told.locals,
            },
            names: told.names.insert(name),
        },
        BlockItemView::Expr(_) => told,
    }
}

/// One of the items from `i` on calls such a value.
pub open spec fn items_call_value(
    env: Env,
    told: Told,
    items: Seq<BlockItemView>,
    i: int,
) -> bool
    decreases items, items.len() - i,
{
    if i < 0 || i >= items.len() {
        false
    } else {
        item_calls_value(env, told, items[i]) || items_call_value(
            env,
            told_after(told, items[i]),
            items,
            i + 1,
        )
    }
}

/// The names whose types are told are in scope, and their slots have the types.
pub open spec fn knows(types: Types, scope: Scope, locals: Locals) -> bool {
    forall|name: Seq<char>| #[trigger]
        locals.contains_key(name) ==> scope.contains_key(name) && has_type(
            types,
            scope[name],
            locals[name],
        )
}

/// What is told holds of the slots.
spec fn informed(env: Env, types: Types, scope: Scope, told: Told) -> bool {
    &&& knows(types, scope, told.locals)
    &&& told.names == scope.dom()
    &&& all_known(types)
    &&& env_typed(types, env, told.arrows)
}

proof fn lemma_informed(env: Env, types: Types, scope: Scope, told: Told, after: Types)
    requires
        ready(env, types, scope),
        informed(env, types, scope, told),
        kept(after, types),
    ensures
        informed(env, after, scope, told),
{
    let none: Scope = Map::empty();
    assert forall|name: Seq<char>| #[trigger] told.locals.contains_key(name) implies has_type(
        after,
        scope[name],
        told.locals[name],
    ) by {
        lemma_type_kept(types, after, scope[name], told.locals[name]);
    }
    assert(none.dom() =~= Map::<Seq<char>, TypeView>::empty().dom());
    lemma_typed_kept(env, told.arrows, types, none, Map::empty(), after);
}

/// The type that is told of a scrutinee is that of its slot.
proof fn lemma_scrutinee(env: Env, types: Types, scope: Scope, told: Told, scrutinee: ExprView)
    requires
        ready(env, types, scope),
        informed(env, types, scope, told),
    ensures
        scrutinee_type(env, told, scrutinee) matches Some(ty) ==> told.locals.dom() == told.names
            && (expr_checked(env, types, scope, scrutinee) matches (one, Ok(info)) ==> has_type(
            one,
            info.ty,
            ty,
        )),
{
    if told.locals.dom() == told.names {
        assert(typed_state(env, told.arrows, types, scope, told.locals));
        lemma_expr_typed(env, told.arrows, types, scope, told.locals, scrutinee);
    }
}

/// A slot that was made to have a type without open parameters has it.
proof fn lemma_constrained_to(types: Types, id: int, ty: TypeView)
    requires
        types.wf(),
        types.has(id),
        !is_generic(ty),
        constrained(types, id, ty).1 is Ok,
    ensures
        has_type(constrained(types, id, ty).0, id, ty),
{
    let one = types.with(Some(ty));
    lemma_with(types, ty);
    assert(one.has(id) && one.has(one.roots[id]));
    assert(types.has(types.roots[id]));
}

/// A pattern leaves the names in scope alone.
proof fn lemma_pattern_scope(
    env: Env,
    types: Types,
    scope: Scope,
    pattern: PatternView,
    expected: TypeView,
)
    ensures
        pattern_checked(env, types, scope, pattern, expected).1 matches Ok(inner) ==> forall|
            name: Seq<char>,
        | #[trigger]
            scope.contains_key(name) ==> inner.contains_key(name) && inner[name] == scope[name],
    decreases pattern,
{
    if let PatternView::Variant { name, payload } = pattern {
        if let Ok(Some(inner)) = pattern_opened(env, expected, name, payload is Some) {
            lemma_pattern_scope(env, types, scope, *payload->Some_0, inner);
        }
    }
}

/// An accepted expression that calls a function value with effects has effects.
proof fn lemma_expr_values(env: Env, types: Types, scope: Scope, told: Told, e: ExprView)
    requires
        ready(env, types, scope),
        informed(env, types, scope, told),
        calls_value(env, told, e),
    ensures
        expr_checked(env, types, scope, e).1 matches Ok(info) ==> info.effectful,
    decreases e, 0int,
{
    match e {
        ExprView::Call { name, args } => {
            if env.variants.contains_key(name) {
                lemma_constructor_values(
                    env,
                    types,
                    scope,
                    told,
                    name,
                    env.variants[name],
                    args,
                );
            } else if scope.contains_key(name) {
                lemma_value_call_values(env, types, scope, told, name, args);
            } else {
                lemma_call_values(env, types, scope, told, name, args);
            }
        },
        ExprView::MethodCall { receiver, name, args } => {
            lemma_expr(env, types, scope, *receiver);
            if calls_value(env, told, *receiver) {
                lemma_expr_values(env, types, scope, told, *receiver);
            }
            let (one, result) = expr_checked(env, types, scope, *receiver);
            if let Ok(receiver) = result {
                lemma_method_selected(one, receiver, name, args.len());
                let (two, selected) = method_selected(one, receiver, name, args.len());
                lemma_kept_twice(types, one, two);
                if selected is Ok && args_call_value(env, told, args, 0) {
                    lemma_ready(env, types, scope, two);
                    lemma_informed(env, types, scope, told, two);
                    assert(!args_call_value(env, told, args, 1));
                    lemma_expr_values(env, two, scope, told, args[0]);
                }
            }
        },
        ExprView::FieldAccess { receiver, .. } => {
            lemma_expr_values(env, types, scope, told, *receiver);
        },
        ExprView::StructLiteral { value, .. } => {
            lemma_expr_values(env, types, scope, told, *value);
        },
        ExprView::Binary { op, left, right } => {
            let name = operator_name(op);
            lemma_expr(env, types, scope, *left);
            if calls_value(env, told, *left) {
                lemma_expr_values(env, types, scope, told, *left);
            }
            let (one, result) = expr_checked(env, types, scope, *left);
            if let Ok(left) = result {
                lemma_method_selected(one, left, name, 1);
                let (two, selected) = method_selected(one, left, name, 1);
                lemma_kept_twice(types, one, two);
                if selected is Ok && calls_value(env, told, *right) {
                    lemma_ready(env, types, scope, two);
                    lemma_informed(env, types, scope, told, two);
                    lemma_expr_values(env, two, scope, told, *right);
                }
            }
        },
        ExprView::Match { scrutinee, arms } => {
            lemma_expr(env, types, scope, *scrutinee);
            if calls_value(env, told, *scrutinee) {
                lemma_expr_values(env, types, scope, told, *scrutinee);
            }
            lemma_scrutinee(env, types, scope, told, *scrutinee);
            let found = scrutinee_type(env, told, *scrutinee);
            let (one, result) = expr_checked(env, types, scope, *scrutinee);
            if let Ok(info) = result {
                lemma_ready(env, types, scope, one);
                lemma_informed(env, types, scope, told, one);
                lemma_matched_values(env, one, scope, told, found, info, arms);
            }
        },
        ExprView::Block(block) => lemma_block_values(env, types, scope, told, block),
        _ => {},
    }
}

proof fn lemma_constructor_values(
    env: Env,
    types: Types,
    scope: Scope,
    told: Told,
    name: Seq<char>,
    variant: Variant,
    args: Seq<ExprView>,
)
    requires
        ready(env, types, scope),
        informed(env, types, scope, told),
        args_call_value(env, told, args, 0),
    ensures
        constructor_checked(env, types, scope, name, variant, args).1 matches Ok(info)
            ==> info.effectful,
    decreases args, args.len() + 1,
{
    if constructor_error(name, variant, args.len()) is None {
        assert(!args_call_value(env, told, args, 1));
        lemma_expr_values(env, types, scope, told, args[0]);
    }
}

proof fn lemma_call_values(
    env: Env,
    types: Types,
    scope: Scope,
    told: Told,
    name: Seq<char>,
    args: Seq<ExprView>,
)
    requires
        ready(env, types, scope),
        informed(env, types, scope, told),
        args_call_value(env, told, args, 0),
    ensures
        call_checked(env, types, scope, name, args).1 matches Ok(info) ==> info.effectful,
    decreases args, args.len() + 1,
{
    if env.signatures.contains_key(name) {
        let signature = env.signatures[name];
        assert(signature_sane(signature, types));
        if args.len() == signature.params.len() {
            lemma_args_values(
                env,
                types,
                scope,
                told,
                args,
                signature.params,
                0,
                called(signature),
            );
        }
    }
}

proof fn lemma_args_values(
    env: Env,
    types: Types,
    scope: Scope,
    told: Told,
    args: Seq<ExprView>,
    params: Seq<int>,
    i: int,
    info: Info,
)
    requires
        ready(env, types, scope),
        informed(env, types, scope, told),
        0 <= i,
        args.len() == params.len(),
        forall|k: int| 0 <= k < params.len() ==> types.has(#[trigger] params[k]),
        sane(info, types),
        info.effectful || args_call_value(env, told, args, i),
    ensures
        args_checked(env, types, scope, args, params, i, info).1 matches Ok(all) ==> all.effectful,
    decreases args, args.len() - i,
{
    if i < args.len() {
        lemma_expr(env, types, scope, args[i]);
        if calls_value(env, told, args[i]) {
            lemma_expr_values(env, types, scope, told, args[i]);
        }
        let (one, result) = expr_checked(env, types, scope, args[i]);
        if let Ok(arg) = result {
            lemma_unified(one, arg.ty, params[i]);
            let (two, outcome) = unified(one, arg.ty, params[i]);
            lemma_kept_twice(types, one, two);
            if outcome is Ok {
                lemma_ready(env, types, scope, two);
                lemma_informed(env, types, scope, told, two);
                lemma_absorbed(info, arg, two);
                lemma_args_values(
                    env,
                    two,
                    scope,
                    told,
                    args,
                    params,
                    i + 1,
                    absorbed(info, arg),
                );
            }
        }
    }
}

proof fn lemma_value_call_values(
    env: Env,
    types: Types,
    scope: Scope,
    told: Told,
    name: Seq<char>,
    args: Seq<ExprView>,
)
    requires
        ready(env, types, scope),
        informed(env, types, scope, told),
        scope.contains_key(name),
        effectful_value(told.locals, name) || args_call_value(env, told, args, 0),
    ensures
        value_call_checked(env, types, scope, name, scope[name], args).1 matches Ok(info)
            ==> info.effectful,
    decreases args, args.len() + 1,
{
    if let Some(TypeView::Function(function)) = types.value_of(scope[name]) {
        let start = effects(function.effectful, Seq::empty());
        lemma_value_args_values(env, types, scope, told, args, function.params, 0, start);
    }
}

proof fn lemma_value_args_values(
    env: Env,
    types: Types,
    scope: Scope,
    told: Told,
    args: Seq<ExprView>,
    params: Seq<TypeView>,
    i: int,
    info: Info,
)
    requires
        ready(env, types, scope),
        informed(env, types, scope, told),
        0 <= i,
        ascending(info.capabilities),
        info.effectful || args_call_value(env, told, args, i),
    ensures
        value_args_checked(env, types, scope, args, params, i, info).1 matches Ok(all)
            ==> all.effectful,
    decreases args, args.len() - i,
{
    if i < args.len() {
        lemma_expr(env, types, scope, args[i]);
        if calls_value(env, told, args[i]) {
            lemma_expr_values(env, types, scope, told, args[i]);
        }
        let (one, result) = expr_checked(env, types, scope, args[i]);
        if let Ok(arg) = result {
            lemma_constrained(one, arg.ty, params[i]);
            let (two, outcome) = constrained(one, arg.ty, params[i]);
            lemma_kept_twice(types, one, two);
            if outcome is Ok {
                lemma_ready(env, types, scope, two);
                lemma_informed(env, types, scope, told, two);
                law_union(info.capabilities, arg.capabilities);
                lemma_value_args_values(
                    env,
                    two,
                    scope,
                    told,
                    args,
                    params,
                    i + 1,
                    absorbed(info, arg),
                );
            }
        }
    }
}

proof fn lemma_matched_values(
    env: Env,
    types: Types,
    scope: Scope,
    told: Told,
    found: Option<TypeView>,
    scrutinee: Info,
    arms: Seq<MatchArmView>,
)
    requires
        ready(env, types, scope),
        informed(env, types, scope, told),
        sane(scrutinee, types),
        found matches Some(ty) ==> told.locals.dom() == told.names && has_type(
            types,
            scrutinee.ty,
            ty,
        ),
        scrutinee.effectful || arms_call_value(env, told, found, arms, 0),
    ensures
        matched(env, types, scope, scrutinee, arms).1 matches Ok(info) ==> info.effectful,
    decreases arms, arms.len() + 1,
{
    if let Some(expected) = types.value_of(scrutinee.ty) {
        lemma_arms_values(
            env,
            types,
            scope,
            told,
            found,
            arms,
            0,
            expected,
            None,
            scrutinee,
        );
    }
}

proof fn lemma_arm_values(
    env: Env,
    types: Types,
    scope: Scope,
    told: Told,
    found: Option<TypeView>,
    arm: MatchArmView,
    expected: TypeView,
)
    requires
        ready(env, types, scope),
        informed(env, types, scope, told),
        found matches Some(ty) ==> told.locals.dom() == told.names && ty == expected
            && !is_generic(ty),
        arm_calls_value(env, told, found, arm),
    ensures
        arm_checked(env, types, scope, arm, expected).1 matches Ok(info) ==> info.effectful,
    decreases arm, 0int,
{
    let inner = told_in_arm(env, told, found, arm.pattern);
    lemma_pattern(env, types, scope, arm.pattern, expected);
    lemma_pattern_scope(env, types, scope, arm.pattern, expected);
    lemma_pattern_names(env, types, scope, arm.pattern, expected);
    if found is Some {
        assert(scope_typed(types, scope, told.locals));
        lemma_pattern_typed(env, types, scope, told.locals, arm.pattern, expected);
    }
    let (one, result) = pattern_checked(env, types, scope, arm.pattern, expected);
    if let Ok(names) = result {
        lemma_ready(env, types, scope, one);
        lemma_informed(env, types, scope, told, one);
        assert(informed(env, one, names, inner));
        lemma_expr_values(env, one, names, inner, arm.expr);
    }
}

proof fn lemma_arms_values(
    env: Env,
    types: Types,
    scope: Scope,
    told: Told,
    found: Option<TypeView>,
    arms: Seq<MatchArmView>,
    i: int,
    expected: TypeView,
    result: Option<int>,
    info: Info,
)
    requires
        ready(env, types, scope),
        informed(env, types, scope, told),
        0 <= i,
        result matches Some(id) ==> types.has(id),
        sane(info, types),
        found matches Some(ty) ==> told.locals.dom() == told.names && ty == expected
            && !is_generic(ty),
        info.effectful || arms_call_value(env, told, found, arms, i),
    ensures
        arms_checked(env, types, scope, arms, i, expected, result, info).1 matches Ok(all)
            ==> all.effectful,
    decreases arms, arms.len() - i,
{
    if i < arms.len() {
        lemma_arm(env, types, scope, arms[i], expected);
        if arm_calls_value(env, told, found, arms[i]) {
            lemma_arm_values(env, types, scope, told, found, arms[i], expected);
        }
        let (one, outcome) = arm_checked(env, types, scope, arms[i], expected);
        if let Ok(arm) = outcome {
            lemma_ready(env, types, scope, one);
            lemma_informed(env, types, scope, told, one);
            lemma_absorbed(info, arm, one);
            let more = absorbed(info, arm);
            match result {
                None => lemma_arms_values(
                    env,
                    one,
                    scope,
                    told,
                    found,
                    arms,
                    i + 1,
                    expected,
                    Some(arm.ty),
                    more,
                ),
                Some(existing) => {
                    lemma_unified(one, existing, arm.ty);
                    let (two, unification) = unified(one, existing, arm.ty);
                    if unification is Ok {
                        lemma_ready(env, one, scope, two);
                        lemma_informed(env, one, scope, told, two);
                        lemma_arms_values(
                            env,
                            two,
                            scope,
                            told,
                            found,
                            arms,
                            i + 1,
                            expected,
                            result,
                            more,
                        );
                    }
                },
            }
        }
    }
}

proof fn lemma_block_values(
    env: Env,
    types: Types,
    scope: Scope,
    told: Told,
    block: BlockView,
)
    requires
        ready(env, types, scope),
        informed(env, types, scope, told),
        block_calls_value(env, told, block),
    ensures
        block_checked(env, types, scope, block).1 matches Ok(info) ==> info.effectful,
    decreases block, 0int,
{
    let start = effects(false, Seq::empty());
    lemma_items_values(env, types, scope, told, block.items, 0, None, start);
}

/// What is told after an accepted item holds: the slot of a binding has the type of its annotation.
proof fn lemma_item_informed(env: Env, types: Types, scope: Scope, told: Told, item: BlockItemView)
    requires
        ready(env, types, scope),
        informed(env, types, scope, told),
        item_checked(env, types, scope, item).1 is Ok,
    ensures
        ({
            let (one, result) = item_checked(env, types, scope, item);
            let inner = match item {
                BlockItemView::Binding { name, .. } => scope.insert(name, result->Ok_0.ty),
                BlockItemView::Expr(_) => scope,
            };
            informed(env, one, inner, told_after(told, item))
        }),
{
    lemma_item(env, types, scope, item);
    let (one, result) = item_checked(env, types, scope, item);
    lemma_informed(env, types, scope, told, one);
    if let BlockItemView::Binding { name, ty, expr } = item {
        let id = result->Ok_0.ty;
        let annotation = ty->Some_0;
        lemma_expr(env, types, scope, expr);
        let before = expr_checked(env, types, scope, expr).0;
        law_valid_closed(env, annotation);
        lemma_constrained_to(before, id, annotation);
        assert(annotated(env, before, name, ty, id) == constrained(before, id, annotation));
        let inner = scope.insert(name, id);
        let after = told.locals.insert(name, annotation);
        assert forall|other: Seq<char>| #[trigger] after.contains_key(other) implies {
            &&& inner.contains_key(other)
            &&& has_type(one, inner[other], after[other])
        } by {
            if other != name {
                assert(told.locals.contains_key(other));
            }
        }
        assert(inner.dom() =~= told.names.insert(name));
    }
}

proof fn lemma_items_values(
    env: Env,
    types: Types,
    scope: Scope,
    told: Told,
    items: Seq<BlockItemView>,
    i: int,
    last: Option<int>,
    info: Info,
)
    requires
        ready(env, types, scope),
        informed(env, types, scope, told),
        0 <= i,
        last matches Some(id) ==> types.has(id),
        ascending(info.capabilities),
        info.effectful || items_call_value(env, told, items, i),
    ensures
        items_checked(env, types, scope, items, i, last, info).1 matches Ok(all) ==> all.effectful,
    decreases items, items.len() - i,
{
    if i < items.len() {
        lemma_item(env, types, scope, items[i]);
        if item_calls_value(env, told, items[i]) {
            lemma_item_values(env, types, scope, told, items[i]);
        }
        let (one, result) = item_checked(env, types, scope, items[i]);
        if let Ok(item) = result {
            lemma_ready(env, types, scope, one);
            lemma_item_informed(env, types, scope, told, items[i]);
            law_union(info.capabilities, item.capabilities);
            let more = absorbed(info, item);
            let next = told_after(told, items[i]);
            match items[i] {
                BlockItemView::Binding { name, .. } => {
                    let inner = scope.insert(name, item.ty);
                    lemma_items_values(env, one, inner, next, items, i + 1, None, more);
                },
                BlockItemView::Expr(_) => {
                    lemma_items_values(env, one, scope, next, items, i + 1, Some(item.ty), more);
                },
            }
        }
    }
}

proof fn lemma_item_values(
    env: Env,
    types: Types,
    scope: Scope,
    told: Told,
    item: BlockItemView,
)
    requires
        ready(env, types, scope),
        informed(env, types, scope, told),
        item_calls_value(env, told, item),
    ensures
        item_checked(env, types, scope, item).1 matches Ok(info) ==> info.effectful,
    decreases item, 0int,
{
    match item {
        BlockItemView::Binding { expr, .. } => lemma_expr_values(env, types, scope, told, expr),
        BlockItemView::Expr(expr) => lemma_expr_values(env, types, scope, told, expr),
    }
}

/// What is told at the start of the body of a function.
pub open spec fn told_at_start(known: Known, function: FunctionView) -> Told {
    let locals = param_types(function, function.params.len() as int);
    Told { arrows: arrows_of(known), locals, names: locals.dom() }
}

/// The body of the function calls a function value with effects, by a name whose type is told.
pub open spec fn body_calls_value(known: Known, function: FunctionView) -> bool {
    block_calls_value(known.env, told_at_start(known, function), function.body)
}

proof fn lemma_function_values(known: Known, types: Types, function: FunctionView)
    requires
        settled(known),
        kept(types, known.types),
        signed(known, function),
        body_calls_value(known, function),
        function_checked(known.env, types, function).1 is Ok,
    ensures
        known.env.signatures[function.name].effectful,
{
    let env = known.env;
    let signature = env.signatures[function.name];
    let none: Scope = Map::empty();
    lemma_ready(env, known.types, none, types);
    assert forall|j: int| 0 <= j < function.params.len() implies annotated_slot(
        types,
        signature.params[j],
        (#[trigger] function.params[j]).ty,
    ) by {
        assert(annotated_slot(known.types, signature.params[j], function.params[j].ty));
        assert(known.types.has(signature.params[j]) && fixed(known.types, signature.params[j]));
    }
    assert(none.dom() =~= param_types(function, 0).dom());
    lemma_params_typed(types, none, function, signature.params, 0);
    let scope = params_scoped(none, function, signature.params, 0)->Ok_0;
    let locals = param_types(function, function.params.len() as int);
    assert(scope_within(scope, types)) by {
        assert forall|name: Seq<char>| #[trigger] scope.contains_key(name) implies types.has(
            scope[name],
        ) by {
            assert(locals.contains_key(name));
        }
    }
    assert(knows(types, scope, locals)) by {
        assert forall|name: Seq<char>| #[trigger]
            locals.contains_key(name) implies scope.contains_key(name) by {
            assert(scope.dom().contains(name));
        }
    }
    lemma_arrows_of(known);
    assert(none.dom() =~= Map::<Seq<char>, TypeView>::empty().dom());
    lemma_typed_kept(env, arrows_of(known), known.types, none, Map::empty(), types);
    lemma_block_values(env, types, scope, told_at_start(known, function), function.body);
}

proof fn lemma_functions_values(
    known: Known,
    types: Types,
    functions: Seq<FunctionView>,
    i: int,
    needs: Needs,
    k: int,
)
    requires
        settled(known),
        kept(types, known.types),
        0 <= i <= k < functions.len(),
        forall|j: int| 0 <= j < functions.len() ==> signed(known, #[trigger] functions[j]),
        functions_checked(known.env, types, functions, i, needs).1 is Ok,
        body_calls_value(known, functions[k]),
    ensures
        known.env.signatures[functions[k].name].effectful,
    decreases functions.len() - i,
{
    if i == k {
        lemma_function_values(known, types, functions[k]);
    } else {
        assert(signed(known, functions[i]));
        let none: Scope = Map::empty();
        lemma_ready(known.env, known.types, none, types);
        lemma_function_checked(known, types, functions[i]);
        let (one, result) = function_checked(known.env, types, functions[i]);
        lemma_kept_twice(known.types, types, one);
        let more = needs.insert(functions[i].name, result->Ok_0);
        lemma_functions_values(known, one, functions, i + 1, more, k);
    }
}

/// A function of an accepted program whose body calls a function value with effects has effects
/// itself. The value is called by the name of a parameter, of a binding, or of a variable of a
/// pattern, as far as the type system tells the type of the scrutinee.
pub proof fn law_values(
    program: ProgramView,
    platform: PlatformView,
    mode: CheckMode,
    typed: TypedProgramView,
    k: int,
)
    requires
        program_checked(program, platform, mode) == Ok::<TypedProgramView, Seq<char>>(typed),
        0 <= k < functions_of(program).len(),
        body_calls_value(program_registered(program, platform).0, functions_of(program)[k]),
    ensures
        typed.functions[k].effectful,
{
    let known = program_registered(program, platform).0;
    let functions = functions_of(program);
    law_registered(program, platform);
    lemma_functions_values(known, known.types, functions, 0, Map::empty(), k);
    law_annotations(program, platform, mode, typed);
    assert(signed(known, functions[k]));
    assert(functions[k] == functions_of(program)[k]);
}

} // verus!
