//! The checker follows the type system.
use vstd::prelude::*;

use crate::ast::{
    functions_of, BinaryOp, BlockItemView, BlockView, ExprView, FunctionTypeView, FunctionView,
    MatchArmView, PatternView, PrimType, ProgramView, TypeView,
};
use crate::platform::PlatformView;
use crate::slots::scope_within;
use crate::text::quoted;
use crate::typecheck::checker::signature_sane;
use crate::typecheck::laws::{
    annotated_slot, law_registered, law_valid_closed, lemma_function_checked, settled, signed,
};
use crate::typecheck::model::{
    absorbed, all_resolved, args_checked, arm_checked, arms_checked, block_checked, call_checked,
    called, constrained, constructed, constructor_checked, constructor_error, effects, enum_covered,
    enum_type, exhaustive, function_type_validated, has_default, has_pattern, has_variant,
    types_validated, variant_names, expr_checked, field_checked, item_checked, items_checked, known,
    known_with, literal_checked, literal_error, matched, method_applied, method_of, method_selected,
    operator_name, pattern_checked, pattern_opened, plain, result_arguments, signature_resolved,
    type_validated, unified, value_args_checked, value_call_checked, var_checked, Capabilities,
    Checked, Env, Info, Method, Scope, Signature, Types, Variant,
};
use crate::typecheck::program::{
    effects_checked, function_checked, functions_checked, params_scoped, program_checked,
    program_registered, CheckMode, Known, Needs,
};
use crate::typecheck::stability::{
    all_known, fixed, kept, lemma_arm, lemma_block, lemma_constrained, lemma_expr, lemma_item,
    lemma_kept_twice, lemma_method_selected, lemma_pattern, lemma_ready, lemma_unified,
    lemma_value_args, lemma_with, ready,
};
use crate::typecheck::substitution::{
    any_generic, function_is_generic, inferred, is_generic, law_unpaired, substituted,
};
use crate::typecheck::typed::TypedProgramView;
use crate::typecheck::typing::{
    arguments, arm_for, arm_of, arm_typing, arms_typing, args_typing, block_typing, covering,
    is_enum, is_variant_of, operator_typing, payload_type, valid, variant_fits, call_typing,
    constructor_typing, expr_typing, field_typing, item_typing, items_typing, literal_typing,
    method_typing, named_call_typing, pattern_typing, told, var_typing, wanted, Arrows, Binding,
    Locals, Typing,
};

verus! {

/// The slot has the type, which has no open parameters.
pub open spec fn has_type(types: Types, id: int, ty: TypeView) -> bool {
    &&& types.has(id)
    &&& types.value_of(id) == Some(ty)
    &&& !is_generic(ty)
}

/// The names in scope have slots of their types.
pub open spec fn scope_typed(types: Types, scope: Scope, locals: Locals) -> bool {
    &&& scope.dom() == locals.dom()
    &&& forall|name: Seq<char>| #[trigger]
        locals.contains_key(name) ==> has_type(types, scope[name], locals[name])
}

/// A slot has the type, unless that has open parameters.
pub open spec fn slot_typed(types: Types, id: int, ty: TypeView) -> bool {
    !is_generic(ty) ==> has_type(types, id, ty)
}

/// A function has slots of its types, as far as they have no open parameters.
pub open spec fn signature_typed(
    types: Types,
    signature: Signature,
    function: FunctionTypeView,
) -> bool {
    &&& signature.params.len() == function.params.len()
    &&& signature.effectful == function.effectful
    &&& forall|j: int|
        0 <= j < function.params.len() ==> slot_typed(
            types,
            signature.params[j],
            #[trigger] function.params[j],
        )
    &&& slot_typed(types, signature.ret, *function.ret)
}

/// The functions have slots of their types, as far as these have no open parameters.
pub open spec fn env_typed(types: Types, env: Env, arrows: Arrows) -> bool {
    &&& env.signatures.dom() == arrows.dom()
    &&& forall|name: Seq<char>| #[trigger]
        arrows.contains_key(name) ==> signature_typed(types, env.signatures[name], arrows[name])
}

/// What the simulation starts from.
pub open spec fn typed_state(
    env: Env,
    arrows: Arrows,
    types: Types,
    scope: Scope,
    locals: Locals,
) -> bool {
    &&& ready(env, types, scope)
    &&& all_known(types)
    &&& scope_typed(types, scope, locals)
    &&& env_typed(types, env, arrows)
}

/// The checker says what the type system says.
pub open spec fn follows(step: Checked<Info>, typing: Typing) -> bool {
    match typing {
        Typing::Has(ty) => step.1 matches Ok(info) && has_type(step.0, info.ty, ty),
        Typing::Open => true,
        Typing::Wrong => step.1 is Err,
    }
}

pub proof fn lemma_typed_kept(
    env: Env,
    arrows: Arrows,
    types: Types,
    scope: Scope,
    locals: Locals,
    after: Types,
)
    requires
        typed_state(env, arrows, types, scope, locals),
        kept(after, types),
    ensures
        typed_state(env, arrows, after, scope, locals),
{
    lemma_ready(env, types, scope, after);
    assert forall|name: Seq<char>| #[trigger] locals.contains_key(name) implies has_type(
        after,
        scope[name],
        locals[name],
    ) by {
        assert(has_type(types, scope[name], locals[name]));
        assert(types.has(scope[name]) && fixed(types, scope[name]));
    }
    assert forall|name: Seq<char>| #[trigger] arrows.contains_key(name) implies signature_typed(
        after,
        env.signatures[name],
        arrows[name],
    ) by {
        let signature = env.signatures[name];
        let function = arrows[name];
        assert(signature_typed(types, signature, function));
        assert forall|j: int| 0 <= j < function.params.len() implies slot_typed(
            after,
            signature.params[j],
            #[trigger] function.params[j],
        ) by {
            assert(slot_typed(types, signature.params[j], function.params[j]));
            if !is_generic(function.params[j]) {
                assert(types.has(signature.params[j]) && fixed(types, signature.params[j]));
            }
        }
        if !is_generic(*function.ret) {
            assert(types.has(signature.ret) && fixed(types, signature.ret));
        }
    }
}

pub proof fn lemma_type_kept(types: Types, after: Types, id: int, ty: TypeView)
    requires
        has_type(types, id, ty),
        kept(after, types),
    ensures
        has_type(after, id, ty),
{
    assert(types.has(id) && fixed(types, id));
}

/// Two slots of types without open parameters are unified exactly where the types are the same.
pub proof fn law_unified(types: Types, a: int, b: int, left: TypeView, right: TypeView)
    requires
        types.wf(),
        has_type(types, a, left),
        has_type(types, b, right),
    ensures
        unified(types, a, b).1 is Ok <==> left == right,
        has_type(unified(types, a, b).0, a, left),
        has_type(unified(types, a, b).0, b, right),
{
    lemma_unified(types, a, b);
    lemma_type_kept(types, unified(types, a, b).0, a, left);
    lemma_type_kept(types, unified(types, a, b).0, b, right);
}

pub proof fn lemma_constrained_typed(types: Types, id: int, actual: TypeView, ty: TypeView)
    requires
        types.wf(),
        has_type(types, id, actual),
        !is_generic(ty),
    ensures
        constrained(types, id, ty).1 is Ok <==> actual == ty,
        kept(constrained(types, id, ty).0, types),
{
    let one = types.with(Some(ty));
    lemma_with(types, ty);
    lemma_type_kept(types, one, id, actual);
    law_unified(one, id, types.len(), actual, ty);
    lemma_constrained(types, id, ty);
}

pub proof fn lemma_known_typed(types: Types, ty: TypeView, info: Info)
    requires
        types.wf(),
    ensures
        kept(types.with(Some(ty)), types),
        follows(known_with(types, ty, info), told(ty)),
        follows(known(types, ty), told(ty)),
{
    lemma_with(types, ty);
}

pub proof fn lemma_list_closed(list: Seq<TypeView>, n: int, k: int)
    requires
        0 <= k < n <= list.len(),
        !any_generic(list, n),
    ensures
        !is_generic(list[k]),
    decreases n,
{
    if k < n - 1 {
        lemma_list_closed(list, n - 1, k);
    }
}

pub proof fn lemma_list_open(list: Seq<TypeView>, n: int)
    requires
        0 <= n <= list.len(),
        forall|k: int| 0 <= k < n ==> !is_generic(#[trigger] list[k]),
    ensures
        !any_generic(list, n),
    decreases n,
{
    if n > 0 {
        lemma_list_open(list, n - 1);
    }
}

/// A function of types without open parameters resolves to them.
pub proof fn lemma_signature_value(
    types: Types,
    name: Seq<char>,
    signature: Signature,
    function: FunctionTypeView,
)
    requires
        signature_typed(types, signature, function),
        !function_is_generic(function),
    ensures
        signature_resolved(types, name, signature) == Ok::<FunctionTypeView, Seq<char>>(function),
{
    let label = quoted("parameter in `"@, name, "`"@);
    lemma_params_value(types, signature, function, 0, label);
    assert(function.params.subrange(0, function.params.len() as int) =~= function.params);
}

pub proof fn lemma_params_value(
    types: Types,
    signature: Signature,
    function: FunctionTypeView,
    i: int,
    label: Seq<char>,
)
    requires
        signature_typed(types, signature, function),
        !function_is_generic(function),
        0 <= i <= function.params.len(),
    ensures
        all_resolved(types, signature.params, i, label) == Ok::<Seq<TypeView>, Seq<char>>(
            function.params.subrange(i, function.params.len() as int),
        ),
    decreases function.params.len() - i,
{
    let rest = function.params.subrange(i, function.params.len() as int);
    if i < function.params.len() {
        lemma_list_closed(function.params, function.params.len() as int, i);
        assert(slot_typed(types, signature.params[i], function.params[i]));
        lemma_params_value(types, signature, function, i + 1, label);
        assert(seq![function.params[i]] + function.params.subrange(
            i + 1,
            function.params.len() as int,
        ) =~= rest);
    } else {
        assert(rest =~= Seq::empty());
    }
}

pub proof fn lemma_var_typed(
    env: Env,
    arrows: Arrows,
    types: Types,
    scope: Scope,
    locals: Locals,
    name: Seq<char>,
)
    requires
        typed_state(env, arrows, types, scope, locals),
    ensures
        follows(
            var_checked(env, types, scope, name),
            var_typing(env, arrows, locals, name),
        ),
{
    assert(scope.contains_key(name) == locals.contains_key(name));
    assert(env.signatures.contains_key(name) == arrows.contains_key(name));
    if !locals.contains_key(name) {
        if env.variants.contains_key(name) {
            lemma_known_typed(types, enum_type(env.variants[name], Seq::empty()), plain(0));
        } else if arrows.contains_key(name) {
            let ty = TypeView::Function(arrows[name]);
            if !is_generic(ty) {
                lemma_signature_value(types, name, env.signatures[name], arrows[name]);
                lemma_known_typed(types, ty, plain(0));
            }
        }
    }
}

pub proof fn lemma_constructed_typed(types: Types, variant: Variant, arg: Info, actual: TypeView)
    requires
        types.wf(),
        has_type(types, arg.ty, actual),
    ensures
        follows(constructed(types, variant, arg), constructor_typing(variant, actual)),
{
    let payload = variant.payload->Some_0;
    let found = inferred(payload, actual, Map::empty());
    let expected = substituted(payload, found);
    assert(result_arguments(variant.enum_type_params, found) =~= arguments(
        variant.enum_type_params,
        found,
    ));
    if !is_generic(expected) {
        lemma_constrained_typed(types, arg.ty, actual, expected);
        let (one, outcome) = constrained(types, arg.ty, expected);
        if outcome is Ok {
            lemma_known_typed(
                one,
                enum_type(variant, result_arguments(variant.enum_type_params, found)),
                arg,
            );
        }
    }
}

pub proof fn lemma_field_typed(
    env: Env,
    types: Types,
    receiver: Info,
    ty: TypeView,
    field: Seq<char>,
)
    requires
        types.wf(),
        has_type(types, receiver.ty, ty),
    ensures
        follows(field_checked(env, types, receiver, field), field_typing(env, ty, field)),
{
    if let TypeView::Named(name) = ty {
        lemma_known_typed(types, env.structs[name].field.ty, receiver);
    }
}

pub proof fn lemma_literal_typed(
    env: Env,
    types: Types,
    name: Seq<char>,
    value: Info,
    ty: TypeView,
)
    requires
        types.wf(),
        has_type(types, value.ty, ty),
    ensures
        follows(literal_checked(env, types, name, value), literal_typing(env, name, ty)),
{
    let field = env.structs[name].field.ty;
    if !is_generic(field) {
        lemma_constrained_typed(types, value.ty, ty, field);
        let (one, outcome) = constrained(types, value.ty, field);
        if outcome is Ok {
            lemma_known_typed(one, TypeView::Named(name), value);
        }
    }
}

pub proof fn lemma_selected_typed(
    types: Types,
    receiver: Info,
    ty: TypeView,
    name: Seq<char>,
    given: nat,
)
    requires
        types.wf(),
        has_type(types, receiver.ty, ty),
    ensures
        match (method_selected(types, receiver, name, given).1, method_typing(ty, name, given)) {
            (Ok(method), Some((operand, ret))) => method.operand matches Some(prim) && operand
                == TypeView::Prim(prim) && ret == TypeView::Prim(method.ret),
            (Err(_), None) => true,
            _ => false,
        },
{
    lemma_method_names();
    if let Ok(method) = method_of(name, Some(ty)) {
        if let Some(prim) = method.operand {
            lemma_constrained_typed(types, receiver.ty, ty, TypeView::Prim(prim));
        }
    }
}

/// The names of the methods differ.
pub proof fn lemma_method_names()
    ensures
        "add"@ != "lt"@,
        "sub"@ != "lt"@,
        "mul"@ != "lt"@,
        "add"@ != "eq"@,
        "sub"@ != "eq"@,
        "mul"@ != "eq"@,
        "lt"@ != "eq"@,
{
    reveal_strlit("add");
    reveal_strlit("sub");
    reveal_strlit("mul");
    reveal_strlit("lt");
    reveal_strlit("eq");
    assert("lt"@[0] != "eq"@[0]);
    assert("lt"@.len() == 2 && "eq"@.len() == 2);
    assert("add"@.len() == 3 && "sub"@.len() == 3 && "mul"@.len() == 3);
}

/// An operator is typed as the method that it stands for.
pub proof fn law_operator(left: TypeView, op: BinaryOp)
    ensures
        method_typing(left, operator_name(op), 1) == operator_typing(left, op),
{
    lemma_method_names();
}

/// A type is accepted exactly where it is valid.
pub proof fn law_valid(env: Env, ty: TypeView, params: Seq<Seq<char>>)
    ensures
        type_validated(env, ty, params) is Ok <==> valid(env, ty, params),
    decreases ty, 0int,
{
    match ty {
        TypeView::Apply { args, .. } => lemma_valid_list(env, args, params, 0),
        TypeView::Function(function) => {
            lemma_valid_list(env, function.params, params, 0);
            law_valid(env, *function.ret, params);
            assert(type_validated(env, ty, params) == function_type_validated(
                env,
                function,
                params,
            ));
        },
        _ => {},
    }
}

pub proof fn lemma_valid_list(env: Env, list: Seq<TypeView>, params: Seq<Seq<char>>, i: int)
    requires
        0 <= i <= list.len(),
    ensures
        types_validated(env, list, params, i) is Ok <==> forall|k: int|
            i <= k < list.len() ==> valid(env, #[trigger] list[k], params),
    decreases list, list.len() - i,
{
    if i < list.len() {
        law_valid(env, list[i], params);
        lemma_valid_list(env, list, params, i + 1);
    }
}

/// The variants of an enum are those that it is listed with.
pub proof fn lemma_variants_listed(env: Env, name: Seq<char>)
    ensures
        is_enum(env, name) <==> variant_names(env, name) is Some,
        variant_names(env, name) matches Some(names) ==> forall|variant: Seq<char>| #[trigger]
            is_variant_of(env, name, variant) <==> names.contains(variant),
{
    if let Some(names) = variant_names(env, name) {
        let declared = env.enums[name].variants;
        assert forall|variant: Seq<char>|
            is_variant_of(env, name, variant) implies names.contains(variant) by {
            if name == "Result"@ {
                assert(names[0] == "Ok"@ && names[1] == "Err"@);
            } else if name == "PlatformError"@ {
                assert(names[0] == "Unsupported"@ && names[1] == "Unavailable"@);
                assert(names[2] == "Interrupted"@ && names[3] == "InvalidUtf8"@);
                assert(names[4] == "Unknown"@);
            } else {
                let k = choose|k: int|
                    0 <= k < declared.len() && (#[trigger] declared[k]).name == variant;
                assert(names[k] == variant);
            }
        }
        assert forall|variant: Seq<char>|
            names.contains(variant) implies is_variant_of(env, name, variant) by {
            let k = choose|k: int| 0 <= k < names.len() && #[trigger] names[k] == variant;
            if name != "Result"@ && name != "PlatformError"@ {
                assert(declared[k].name == variant);
            }
        }
    }
}

/// A match is accepted as exhaustive exactly where its arms leave no value out.
pub proof fn law_covering(env: Env, ty: TypeView, arms: Seq<MatchArmView>)
    ensures
        exhaustive(env, ty, arms) <==> covering(env, ty, arms),
{
    match ty {
        TypeView::Named(name) => lemma_covering(env, name, arms),
        TypeView::Apply { name, .. } => lemma_covering(env, name, arms),
        TypeView::Prim(PrimType::Bool) => {
            assert forall|truth: bool| #[trigger]
                arm_of(arms, PatternView::Bool(truth)) <==> has_pattern(
                arms,
                PatternView::Bool(truth),
            ) by {}
            if exhaustive(env, ty, arms) && !has_default(arms) {
                assert forall|truth: bool| #[trigger]
                    arm_of(arms, PatternView::Bool(truth)) by {
                    assert(has_pattern(arms, PatternView::Bool(truth)));
                }
            }
            if covering(env, ty, arms) && !has_default(arms) {
                assert(arm_of(arms, PatternView::Bool(true)));
                assert(arm_of(arms, PatternView::Bool(false)));
            }
        },
        _ => {},
    }
}

proof fn lemma_covering(env: Env, name: Seq<char>, arms: Seq<MatchArmView>)
    ensures
        enum_covered(env, name, arms) <==> is_enum(env, name) && forall|variant: Seq<char>|
            is_variant_of(env, name, variant) ==> #[trigger] arm_for(arms, variant),
{
    lemma_variants_listed(env, name);
    if let Some(names) = variant_names(env, name) {
        assert forall|variant: Seq<char>| #[trigger] arm_for(arms, variant) <==> has_variant(
            arms,
            variant,
        ) by {}
        if enum_covered(env, name, arms) {
            assert forall|variant: Seq<char>|
                is_variant_of(env, name, variant) implies #[trigger] arm_for(arms, variant) by {
                assert(names.contains(variant));
                let k = choose|k: int| 0 <= k < names.len() && #[trigger] names[k] == variant;
                assert(has_variant(arms, names[k]));
            }
        }
        if forall|variant: Seq<char>|
            is_variant_of(env, name, variant) ==> #[trigger] arm_for(arms, variant) {
            assert forall|k: int| 0 <= k < names.len() implies has_variant(
                arms,
                #[trigger] names[k],
            ) by {
                assert(is_variant_of(env, name, names[k]));
                assert(arm_for(arms, names[k]));
            }
        }
    }
}

/// A pattern of a variant is accepted exactly where the variant fits.
pub proof fn lemma_opened(env: Env, expected: TypeView, name: Seq<char>, has_payload: bool)
    ensures
        match pattern_opened(env, expected, name, has_payload) {
            Err(_) => !variant_fits(env, name, has_payload, expected),
            Ok(None) => !has_payload && variant_fits(env, name, has_payload, expected),
            Ok(Some(inner)) => has_payload && variant_fits(env, name, has_payload, expected)
                && inner == payload_type(env.variants[name], expected),
        },
{
    if env.variants.contains_key(name) {
        let variant = env.variants[name];
        if variant.enum_type_params.len() == 0 && variant.payload is Some {
            law_unpaired(variant.payload->Some_0);
        }
    }
}

pub proof fn lemma_applied_typed(
    types: Types,
    receiver: Info,
    arg: Info,
    actual: TypeView,
    method: Method,
    prim: PrimType,
)
    requires
        types.wf(),
        has_type(types, arg.ty, actual),
        method.operand == Some(prim),
    ensures
        follows(
            method_applied(types, receiver, arg, method),
            wanted(actual, TypeView::Prim(prim), TypeView::Prim(method.ret)),
        ),
{
    lemma_constrained_typed(types, arg.ty, actual, TypeView::Prim(prim));
    let (one, outcome) = constrained(types, arg.ty, TypeView::Prim(prim));
    if outcome is Ok {
        lemma_known_typed(one, TypeView::Prim(method.ret), absorbed(receiver, arg));
    }
}

pub proof fn lemma_pattern_typed(
    env: Env,
    types: Types,
    scope: Scope,
    locals: Locals,
    pattern: PatternView,
    expected: TypeView,
)
    requires
        types.wf(),
        scope_within(scope, types),
        scope_typed(types, scope, locals),
        !is_generic(expected),
    ensures
        match pattern_typing(env, locals, pattern, expected) {
            Binding::Binds(inner) => {
                let step = pattern_checked(env, types, scope, pattern, expected);
                step.1 matches Ok(names) && scope_typed(step.0, names, inner)
            },
            Binding::Open => true,
            Binding::Wrong => pattern_checked(env, types, scope, pattern, expected).1 is Err,
        },
    decreases pattern,
{
    match pattern {
        PatternView::Var(name) => {
            assert(scope.contains_key(name) == locals.contains_key(name));
            if !locals.contains_key(name) {
                let after = types.with(Some(expected));
                lemma_with(types, expected);
                let names = scope.insert(name, types.len());
                let inner = locals.insert(name, expected);
                assert(names.dom() =~= inner.dom());
                assert forall|other: Seq<char>| #[trigger] inner.contains_key(other) implies has_type(
                    after,
                    names[other],
                    inner[other],
                ) by {
                    if other != name {
                        assert(locals.contains_key(other));
                        lemma_type_kept(types, after, scope[other], locals[other]);
                    }
                }
            }
        },
        PatternView::Variant { name, payload } => {
            lemma_opened(env, expected, name, payload is Some);
            if let Ok(Some(inner)) = pattern_opened(env, expected, name, payload is Some) {
                if !is_generic(inner) {
                    lemma_pattern_typed(env, types, scope, locals, *payload->Some_0, inner);
                }
            }
        },
        _ => {},
    }
}

pub proof fn lemma_expr_typed(
    env: Env,
    arrows: Arrows,
    types: Types,
    scope: Scope,
    locals: Locals,
    e: ExprView,
)
    requires
        typed_state(env, arrows, types, scope, locals),
    ensures
        follows(expr_checked(env, types, scope, e), expr_typing(env, arrows, locals, e)),
    decreases e, 0int,
{
    let none = plain(0);
    match e {
        ExprView::Int(_) => lemma_known_typed(types, TypeView::Prim(PrimType::I32), none),
        ExprView::Bool(_) => lemma_known_typed(types, TypeView::Prim(PrimType::Bool), none),
        ExprView::String(_) => lemma_known_typed(types, TypeView::Prim(PrimType::String), none),
        ExprView::Unit => lemma_known_typed(types, TypeView::Prim(PrimType::Unit), none),
        ExprView::Var(name) => lemma_var_typed(env, arrows, types, scope, locals, name),
        ExprView::Call { name, args } => {
            lemma_named_call_typed(env, arrows, types, scope, locals, name, args);
        },
        ExprView::MethodCall { receiver, name, args } => {
            lemma_expr(env, types, scope, *receiver);
            lemma_expr_typed(env, arrows, types, scope, locals, *receiver);
            let (one, result) = expr_checked(env, types, scope, *receiver);
            if let Typing::Has(ty) = expr_typing(env, arrows, locals, *receiver) {
                let receiver = result->Ok_0;
                lemma_selected_typed(one, receiver, ty, name, args.len());
                lemma_method_selected(one, receiver, name, args.len());
                let (two, selected) = method_selected(one, receiver, name, args.len());
                lemma_kept_twice(types, one, two);
                if let Ok(method) = selected {
                    lemma_typed_kept(env, arrows, types, scope, locals, two);
                    lemma_expr(env, two, scope, args[0]);
                    lemma_expr_typed(env, arrows, two, scope, locals, args[0]);
                    let (three, result) = expr_checked(env, two, scope, args[0]);
                    if let Typing::Has(actual) = expr_typing(env, arrows, locals, args[0]) {
                        lemma_applied_typed(
                            three,
                            receiver,
                            result->Ok_0,
                            actual,
                            method,
                            method.operand->Some_0,
                        );
                    }
                }
            }
        },
        ExprView::FieldAccess { receiver, field } => {
            lemma_expr(env, types, scope, *receiver);
            lemma_expr_typed(env, arrows, types, scope, locals, *receiver);
            let (one, result) = expr_checked(env, types, scope, *receiver);
            if let Typing::Has(ty) = expr_typing(env, arrows, locals, *receiver) {
                lemma_field_typed(env, one, result->Ok_0, ty, field);
            }
        },
        ExprView::StructLiteral { name, field, value } => {
            if literal_error(env, name, field) is None {
                lemma_expr(env, types, scope, *value);
                lemma_expr_typed(env, arrows, types, scope, locals, *value);
                let (one, result) = expr_checked(env, types, scope, *value);
                if let Typing::Has(ty) = expr_typing(env, arrows, locals, *value) {
                    lemma_literal_typed(env, one, name, result->Ok_0, ty);
                }
            }
        },
        ExprView::Binary { op, left, right } => {
            let name = operator_name(op);
            lemma_expr(env, types, scope, *left);
            lemma_expr_typed(env, arrows, types, scope, locals, *left);
            let (one, result) = expr_checked(env, types, scope, *left);
            if let Typing::Has(ty) = expr_typing(env, arrows, locals, *left) {
                let left = result->Ok_0;
                law_operator(ty, op);
                lemma_selected_typed(one, left, ty, name, 1);
                lemma_method_selected(one, left, name, 1);
                let (two, selected) = method_selected(one, left, name, 1);
                lemma_kept_twice(types, one, two);
                if let Ok(method) = selected {
                    lemma_typed_kept(env, arrows, types, scope, locals, two);
                    lemma_expr(env, two, scope, *right);
                    lemma_expr_typed(env, arrows, two, scope, locals, *right);
                    let (three, result) = expr_checked(env, two, scope, *right);
                    if let Typing::Has(actual) = expr_typing(env, arrows, locals, *right) {
                        lemma_applied_typed(
                            three,
                            left,
                            result->Ok_0,
                            actual,
                            method,
                            method.operand->Some_0,
                        );
                    }
                }
            }
        },
        ExprView::Match { scrutinee, arms } => {
            if arms.len() > 0 {
                lemma_expr(env, types, scope, *scrutinee);
                lemma_expr_typed(env, arrows, types, scope, locals, *scrutinee);
                let (one, result) = expr_checked(env, types, scope, *scrutinee);
                if let Typing::Has(expected) = expr_typing(env, arrows, locals, *scrutinee) {
                    lemma_typed_kept(env, arrows, types, scope, locals, one);
                    lemma_arms_typed(
                        env,
                        arrows,
                        one,
                        scope,
                        locals,
                        arms,
                        0,
                        expected,
                        None,
                        None,
                        result->Ok_0,
                    );
                    law_covering(env, expected, arms);
                    assert(follows(
                        matched(env, one, scope, result->Ok_0, arms),
                        expr_typing(env, arrows, locals, e),
                    ));
                }
            }
        },
        ExprView::Block(block) => lemma_block_typed(env, arrows, types, scope, locals, block),
    }
}

/// The step of a call by name.
pub open spec fn named_call_checked(
    env: Env,
    types: Types,
    scope: Scope,
    name: Seq<char>,
    args: Seq<ExprView>,
) -> Checked<Info> {
    if env.variants.contains_key(name) {
        constructor_checked(env, types, scope, name, env.variants[name], args)
    } else if scope.contains_key(name) {
        value_call_checked(env, types, scope, name, scope[name], args)
    } else {
        call_checked(env, types, scope, name, args)
    }
}

pub proof fn lemma_named_call_typed(
    env: Env,
    arrows: Arrows,
    types: Types,
    scope: Scope,
    locals: Locals,
    name: Seq<char>,
    args: Seq<ExprView>,
)
    requires
        typed_state(env, arrows, types, scope, locals),
    ensures
        follows(
            named_call_checked(env, types, scope, name, args),
            named_call_typing(env, arrows, locals, name, args),
        ),
    decreases args, args.len() + 2,
{
    assert(scope.contains_key(name) == locals.contains_key(name));
    assert(env.signatures.contains_key(name) == arrows.contains_key(name));
    if env.variants.contains_key(name) {
        let variant = env.variants[name];
        if constructor_error(name, variant, args.len()) is None {
            lemma_expr(env, types, scope, args[0]);
            lemma_expr_typed(env, arrows, types, scope, locals, args[0]);
            let (one, result) = expr_checked(env, types, scope, args[0]);
            if let Typing::Has(actual) = expr_typing(env, arrows, locals, args[0]) {
                lemma_constructed_typed(one, variant, result->Ok_0, actual);
            }
        }
    } else if locals.contains_key(name) {
        assert(has_type(types, scope[name], locals[name]));
        if let TypeView::Function(function) = locals[name] {
            lemma_value_call_typed(
                env,
                arrows,
                types,
                scope,
                locals,
                name,
                args,
                function,
            );
        }
    } else if arrows.contains_key(name) {
        if !is_generic(TypeView::Function(arrows[name])) {
            lemma_call_typed(env, arrows, types, scope, locals, name, args);
        }
    }
}

pub proof fn lemma_call_typed(
    env: Env,
    arrows: Arrows,
    types: Types,
    scope: Scope,
    locals: Locals,
    name: Seq<char>,
    args: Seq<ExprView>,
)
    requires
        typed_state(env, arrows, types, scope, locals),
        arrows.contains_key(name),
        env.signatures.contains_key(name),
        !function_is_generic(arrows[name]),
    ensures
        follows(
            call_checked(env, types, scope, name, args),
            call_typing(env, arrows, locals, args, arrows[name]),
        ),
    decreases args, args.len() + 1,
{
    let signature = env.signatures[name];
    assert(signature_typed(types, signature, arrows[name]));
    assert(signature_sane(signature, types));
    if args.len() == signature.params.len() {
        lemma_args_typed(
            env,
            arrows,
            types,
            scope,
            locals,
            args,
            name,
            0,
            called(signature),
        );
    }
}

pub proof fn lemma_args_typed(
    env: Env,
    arrows: Arrows,
    types: Types,
    scope: Scope,
    locals: Locals,
    args: Seq<ExprView>,
    name: Seq<char>,
    i: int,
    info: Info,
)
    requires
        typed_state(env, arrows, types, scope, locals),
        arrows.contains_key(name),
        env.signatures.contains_key(name),
        !function_is_generic(arrows[name]),
        0 <= i,
        args.len() == arrows[name].params.len(),
        info.ty == env.signatures[name].ret,
    ensures
        follows(
            args_checked(env, types, scope, args, env.signatures[name].params, i, info),
            args_typing(env, arrows, locals, args, arrows[name], i),
        ),
    decreases args, args.len() - i,
{
    let signature = env.signatures[name];
    let function = arrows[name];
    assert(signature_typed(types, signature, function));
    if i < args.len() {
        lemma_expr(env, types, scope, args[i]);
        lemma_expr_typed(env, arrows, types, scope, locals, args[i]);
        let (one, result) = expr_checked(env, types, scope, args[i]);
        if let Typing::Has(actual) = expr_typing(env, arrows, locals, args[i]) {
            let arg = result->Ok_0;
            lemma_typed_kept(env, arrows, types, scope, locals, one);
            assert(signature_typed(one, signature, function));
            lemma_list_closed(function.params, function.params.len() as int, i);
            assert(slot_typed(one, signature.params[i], function.params[i]));
            law_unified(one, arg.ty, signature.params[i], actual, function.params[i]);
            lemma_unified(one, arg.ty, signature.params[i]);
            let (two, outcome) = unified(one, arg.ty, signature.params[i]);
            if outcome is Ok {
                lemma_typed_kept(env, arrows, one, scope, locals, two);
                lemma_args_typed(
                    env,
                    arrows,
                    two,
                    scope,
                    locals,
                    args,
                    name,
                    i + 1,
                    absorbed(info, arg),
                );
            }
        }
    }
}

pub proof fn lemma_value_call_typed(
    env: Env,
    arrows: Arrows,
    types: Types,
    scope: Scope,
    locals: Locals,
    name: Seq<char>,
    args: Seq<ExprView>,
    function: FunctionTypeView,
)
    requires
        typed_state(env, arrows, types, scope, locals),
        locals.contains_key(name),
        locals[name] == TypeView::Function(function),
    ensures
        follows(
            value_call_checked(env, types, scope, name, scope[name], args),
            call_typing(env, arrows, locals, args, function),
        ),
    decreases args, args.len() + 1,
{
    assert(has_type(types, scope[name], locals[name]));
    if args.len() == function.params.len() {
        let start = effects(function.effectful, Seq::empty());
        lemma_value_args_typed(env, arrows, types, scope, locals, args, function, 0, start);
        lemma_value_args(
            env,
            types,
            scope,
            args,
            function.params,
            0,
            start,
        );
        let (one, result) = value_args_checked(env, types, scope, args, function.params, 0, start);
        if let Ok(info) = result {
            lemma_known_typed(one, *function.ret, info);
        }
    }
}

pub proof fn lemma_value_args_typed(
    env: Env,
    arrows: Arrows,
    types: Types,
    scope: Scope,
    locals: Locals,
    args: Seq<ExprView>,
    function: FunctionTypeView,
    i: int,
    info: Info,
)
    requires
        typed_state(env, arrows, types, scope, locals),
        !function_is_generic(function),
        0 <= i,
        args.len() == function.params.len(),
    ensures
        match args_typing(env, arrows, locals, args, function, i) {
            Typing::Has(ty) => ty == *function.ret && value_args_checked(
                env,
                types,
                scope,
                args,
                function.params,
                i,
                info,
            ).1 is Ok,
            Typing::Open => true,
            Typing::Wrong => value_args_checked(
                env,
                types,
                scope,
                args,
                function.params,
                i,
                info,
            ).1 is Err,
        },
    decreases args, args.len() - i,
{
    if i < args.len() {
        lemma_expr(env, types, scope, args[i]);
        lemma_expr_typed(env, arrows, types, scope, locals, args[i]);
        let (one, result) = expr_checked(env, types, scope, args[i]);
        if let Typing::Has(actual) = expr_typing(env, arrows, locals, args[i]) {
            let arg = result->Ok_0;
            lemma_list_closed(function.params, function.params.len() as int, i);
            lemma_constrained_typed(one, arg.ty, actual, function.params[i]);
            let (two, outcome) = constrained(one, arg.ty, function.params[i]);
            lemma_kept_twice(types, one, two);
            if outcome is Ok {
                lemma_typed_kept(env, arrows, types, scope, locals, two);
                lemma_value_args_typed(
                    env,
                    arrows,
                    two,
                    scope,
                    locals,
                    args,
                    function,
                    i + 1,
                    absorbed(info, arg),
                );
            }
        }
    }
}

pub proof fn lemma_arm_typed(
    env: Env,
    arrows: Arrows,
    types: Types,
    scope: Scope,
    locals: Locals,
    arm: MatchArmView,
    expected: TypeView,
)
    requires
        typed_state(env, arrows, types, scope, locals),
        !is_generic(expected),
    ensures
        follows(
            arm_checked(env, types, scope, arm, expected),
            arm_typing(env, arrows, locals, arm, expected),
        ),
    decreases arm, 0int,
{
    lemma_pattern(env, types, scope, arm.pattern, expected);
    lemma_pattern_typed(env, types, scope, locals, arm.pattern, expected);
    let (one, result) = pattern_checked(env, types, scope, arm.pattern, expected);
    if let Binding::Binds(inner) = pattern_typing(env, locals, arm.pattern, expected) {
        lemma_typed_kept(env, arrows, types, scope, locals, one);
        lemma_expr_typed(env, arrows, one, result->Ok_0, inner, arm.expr);
    }
}

pub proof fn lemma_arms_typed(
    env: Env,
    arrows: Arrows,
    types: Types,
    scope: Scope,
    locals: Locals,
    arms: Seq<MatchArmView>,
    i: int,
    expected: TypeView,
    result: Option<int>,
    ty: Option<TypeView>,
    info: Info,
)
    requires
        typed_state(env, arrows, types, scope, locals),
        !is_generic(expected),
        0 <= i,
        match (result, ty) {
            (Some(id), Some(ty)) => has_type(types, id, ty),
            (None, None) => i < arms.len(),
            _ => false,
        },
    ensures
        follows(
            arms_checked(env, types, scope, arms, i, expected, result, info),
            arms_typing(env, arrows, locals, arms, i, expected, ty),
        ),
    decreases arms, arms.len() - i,
{
    if i < arms.len() {
        lemma_arm(env, types, scope, arms[i], expected);
        lemma_arm_typed(env, arrows, types, scope, locals, arms[i], expected);
        let (one, outcome) = arm_checked(env, types, scope, arms[i], expected);
        if let Typing::Has(actual) = arm_typing(env, arrows, locals, arms[i], expected) {
            let arm = outcome->Ok_0;
            lemma_typed_kept(env, arrows, types, scope, locals, one);
            match result {
                None => lemma_arms_typed(
                    env,
                    arrows,
                    one,
                    scope,
                    locals,
                    arms,
                    i + 1,
                    expected,
                    Some(arm.ty),
                    Some(actual),
                    absorbed(info, arm),
                ),
                Some(existing) => {
                    lemma_type_kept(types, one, existing, ty->Some_0);
                    law_unified(one, existing, arm.ty, ty->Some_0, actual);
                    lemma_unified(one, existing, arm.ty);
                    let (two, unification) = unified(one, existing, arm.ty);
                    if unification is Ok {
                        lemma_typed_kept(env, arrows, one, scope, locals, two);
                        lemma_arms_typed(
                            env,
                            arrows,
                            two,
                            scope,
                            locals,
                            arms,
                            i + 1,
                            expected,
                            result,
                            ty,
                            absorbed(info, arm),
                        );
                    }
                },
            }
        }
    }
}

pub proof fn lemma_block_typed(
    env: Env,
    arrows: Arrows,
    types: Types,
    scope: Scope,
    locals: Locals,
    block: BlockView,
)
    requires
        typed_state(env, arrows, types, scope, locals),
    ensures
        follows(
            block_checked(env, types, scope, block),
            block_typing(env, arrows, locals, block),
        ),
    decreases block, 0int,
{
    lemma_items_typed(
        env,
        arrows,
        types,
        scope,
        locals,
        block.items,
        0,
        None,
        TypeView::Prim(PrimType::Unit),
        effects(false, Seq::empty()),
    );
}

pub proof fn lemma_items_typed(
    env: Env,
    arrows: Arrows,
    types: Types,
    scope: Scope,
    locals: Locals,
    items: Seq<BlockItemView>,
    i: int,
    last: Option<int>,
    ty: TypeView,
    info: Info,
)
    requires
        typed_state(env, arrows, types, scope, locals),
        0 <= i,
        match last {
            Some(id) => has_type(types, id, ty),
            None => ty == TypeView::Prim(PrimType::Unit),
        },
    ensures
        follows(
            items_checked(env, types, scope, items, i, last, info),
            items_typing(env, arrows, locals, items, i, ty),
        ),
    decreases items, items.len() - i,
{
    if i < items.len() {
        lemma_item(env, types, scope, items[i]);
        lemma_item_typed(env, arrows, types, scope, locals, items[i]);
        let (one, result) = item_checked(env, types, scope, items[i]);
        if let Typing::Has(actual) = item_typing(env, arrows, locals, items[i]) {
            let item = result->Ok_0;
            let more = absorbed(info, item);
            lemma_typed_kept(env, arrows, types, scope, locals, one);
            match items[i] {
                BlockItemView::Binding { name, .. } => {
                    let inner = scope.insert(name, item.ty);
                    let names = locals.insert(name, actual);
                    assert(inner.dom() =~= names.dom());
                    assert forall|other: Seq<char>| #[trigger]
                        names.contains_key(other) implies has_type(
                        one,
                        inner[other],
                        names[other],
                    ) by {
                        if other != name {
                            assert(locals.contains_key(other));
                        }
                    }
                    lemma_items_typed(
                        env,
                        arrows,
                        one,
                        inner,
                        names,
                        items,
                        i + 1,
                        None,
                        TypeView::Prim(PrimType::Unit),
                        more,
                    );
                },
                BlockItemView::Expr(_) => {
                    lemma_items_typed(
                        env,
                        arrows,
                        one,
                        scope,
                        locals,
                        items,
                        i + 1,
                        Some(item.ty),
                        actual,
                        more,
                    );
                },
            }
        }
    } else if last is None {
        lemma_known_typed(types, ty, info);
    }
}

pub proof fn lemma_item_typed(
    env: Env,
    arrows: Arrows,
    types: Types,
    scope: Scope,
    locals: Locals,
    item: BlockItemView,
)
    requires
        typed_state(env, arrows, types, scope, locals),
    ensures
        follows(
            item_checked(env, types, scope, item),
            item_typing(env, arrows, locals, item),
        ),
    decreases item, 0int,
{
    match item {
        BlockItemView::Binding { name, ty, expr } => {
            assert(scope.contains_key(name) == locals.contains_key(name));
            if !locals.contains_key(name) {
                lemma_expr(env, types, scope, expr);
                lemma_expr_typed(env, arrows, types, scope, locals, expr);
                let (one, result) = expr_checked(env, types, scope, expr);
                if let Typing::Has(actual) = expr_typing(env, arrows, locals, expr) {
                    if let Some(annotation) = ty {
                        law_valid(env, annotation, Seq::empty());
                        if type_validated(env, annotation, Seq::empty()) is Ok {
                            let info = result->Ok_0;
                            law_valid_closed(env, annotation);
                            lemma_constrained_typed(one, info.ty, actual, annotation);
                            lemma_type_kept(
                                one,
                                constrained(one, info.ty, annotation).0,
                                info.ty,
                                actual,
                            );
                        }
                    }
                }
            }
        },
        BlockItemView::Expr(expr) => lemma_expr_typed(env, arrows, types, scope, locals, expr),
    }
}

/// The types of the slots of a function.
pub open spec fn arrow_of(types: Types, signature: Signature) -> FunctionTypeView {
    FunctionTypeView {
        params: signature.params.map_values(|id: int| types.value_of(id)->Some_0),
        ret: Box::new(types.value_of(signature.ret)->Some_0),
        effectful: signature.effectful,
    }
}

/// The types of the functions of a program, and of those that it imports.
pub open spec fn arrows_of(known: Known) -> Arrows {
    known.env.signatures.map_values(|signature: Signature| arrow_of(known.types, signature))
}

pub proof fn lemma_arrows_of(known: Known)
    requires
        settled(known),
    ensures
        env_typed(known.types, known.env, arrows_of(known)),
{
    let arrows = arrows_of(known);
    assert(known.env.signatures.dom() =~= arrows.dom());
    assert forall|name: Seq<char>| #[trigger] arrows.contains_key(name) implies signature_typed(
        known.types,
        known.env.signatures[name],
        arrows[name],
    ) by {
        let signature = known.env.signatures[name];
        assert(signature_sane(signature, known.types));
        assert forall|j: int| 0 <= j < arrows[name].params.len() implies slot_typed(
            known.types,
            signature.params[j],
            #[trigger] arrows[name].params[j],
        ) by {
            assert(known.types.has(signature.params[j]));
        }
    }
}

/// The first `n` parameters with their annotated types.
pub open spec fn param_types(function: FunctionView, n: int) -> Locals
    decreases n,
{
    if n <= 0 {
        Map::empty()
    } else {
        param_types(function, n - 1).insert(
            function.params[n - 1].name,
            function.params[n - 1].ty->Some_0,
        )
    }
}

/// What the type system says of the body of a function.
pub open spec fn body_typing(known: Known, function: FunctionView) -> Typing {
    block_typing(
        known.env,
        arrows_of(known),
        param_types(function, function.params.len() as int),
        function.body,
    )
}

/// The parameters of a function differ.
pub open spec fn distinct_params(function: FunctionView) -> bool {
    forall|j: int, k: int|
        0 <= j < k < function.params.len() ==> (#[trigger] function.params[j]).name != (
        #[trigger] function.params[k]).name
}

pub proof fn lemma_params_typed(
    types: Types,
    scope: Scope,
    function: FunctionView,
    params: Seq<int>,
    i: int,
)
    requires
        0 <= i <= function.params.len(),
        params.len() == function.params.len(),
        forall|j: int|
            0 <= j < function.params.len() ==> annotated_slot(
                types,
                params[j],
                (#[trigger] function.params[j]).ty,
            ),
        scope_typed(types, scope, param_types(function, i)),
        forall|name: Seq<char>| #[trigger]
            scope.contains_key(name) ==> exists|j: int|
                0 <= j < i && (#[trigger] function.params[j]).name == name,
    ensures
        params_scoped(scope, function, params, i) matches Ok(all) ==> scope_typed(
            types,
            all,
            param_types(function, function.params.len() as int),
        ),
        distinct_params(function) ==> params_scoped(scope, function, params, i) is Ok,
    decreases function.params.len() - i,
{
    if i < function.params.len() {
        let name = function.params[i].name;
        if !scope.contains_key(name) {
            let next = scope.insert(name, params[i]);
            let locals = param_types(function, i + 1);
            assert(annotated_slot(types, params[i], function.params[i].ty));
            assert(next.dom() =~= locals.dom());
            assert forall|other: Seq<char>| #[trigger] locals.contains_key(other) implies has_type(
                types,
                next[other],
                locals[other],
            ) by {
                if other != name {
                    assert(param_types(function, i).contains_key(other));
                }
            }
            assert forall|other: Seq<char>| #[trigger] next.contains_key(other) implies exists|
                j: int,
            |
                0 <= j < i + 1 && (#[trigger] function.params[j]).name == other by {
                if other == name {
                    assert(function.params[i].name == other);
                } else {
                    assert(scope.contains_key(other));
                }
            }
            lemma_params_typed(types, next, function, params, i + 1);
        }
    }
}

/// A diagnostic about the effects of a function.
pub open spec fn about_effects(function: FunctionView, signature: Signature, message: Seq<char>) -> bool {
    exists|body: Info| #[trigger]
        effects_checked(function.name, signature, body) == Err::<
            Capabilities,
            Seq<char>,
        >(message)
}

pub proof fn lemma_function_typed(
    known: Known,
    types: Types,
    function: FunctionView,
)
    requires
        settled(known),
        kept(types, known.types),
        signed(known, function),
    ensures
        function_checked(known.env, types, function).1 is Ok ==> match body_typing(
            known,
            function,
        ) {
            Typing::Has(ty) => function.return_annotation == Some(ty),
            Typing::Open => true,
            Typing::Wrong => false,
        },
        distinct_params(function) && (body_typing(known, function) matches Typing::Has(ty)
            && function.return_annotation == Some(ty)) ==> (function_checked(
            known.env,
            types,
            function,
        ).1 matches Err(message) ==> about_effects(
            function,
            known.env.signatures[function.name],
            message,
        )),
{
    let env = known.env;
    let arrows = arrows_of(known);
    let signature = env.signatures[function.name];
    let none: Scope = Map::empty();
    lemma_arrows_of(known);
    assert(none.dom() =~= Map::<Seq<char>, TypeView>::empty().dom());
    assert(typed_state(env, arrows, known.types, none, Map::empty()));
    lemma_typed_kept(env, arrows, known.types, none, Map::empty(), types);
    assert forall|j: int| 0 <= j < function.params.len() implies annotated_slot(
        types,
        signature.params[j],
        (#[trigger] function.params[j]).ty,
    ) by {
        assert(annotated_slot(known.types, signature.params[j], function.params[j].ty));
        assert(known.types.has(signature.params[j]) && fixed(known.types, signature.params[j]));
    }
    assert(known.types.has(signature.ret) && fixed(known.types, signature.ret));
    lemma_params_typed(types, none, function, signature.params, 0);
    if let Ok(scope) = params_scoped(none, function, signature.params, 0) {
        let locals = param_types(function, function.params.len() as int);
        assert(scope_within(scope, types)) by {
            assert forall|name: Seq<char>| #[trigger] scope.contains_key(name) implies types.has(
                scope[name],
            ) by {
                assert(locals.contains_key(name));
            }
        }
        lemma_block(env, types, scope, function.body);
        lemma_block_typed(env, arrows, types, scope, locals, function.body);
        let (one, result) = block_checked(env, types, scope, function.body);
        if let Typing::Has(ty) = body_typing(known, function) {
            let body = result->Ok_0;
            let ret = function.return_annotation->Some_0;
            assert(has_type(types, signature.ret, ret));
            lemma_type_kept(types, one, signature.ret, ret);
            law_unified(one, signature.ret, body.ty, ret, ty);
        }
    }
}

pub proof fn lemma_functions_typed(
    known: Known,
    types: Types,
    functions: Seq<FunctionView>,
    i: int,
    needs: Needs,
)
    requires
        settled(known),
        kept(types, known.types),
        0 <= i <= functions.len(),
        forall|k: int| 0 <= k < functions.len() ==> signed(known, #[trigger] functions[k]),
    ensures
        functions_checked(known.env, types, functions, i, needs).1 is Ok ==> forall|k: int|
            i <= k < functions.len() ==> match body_typing(known, #[trigger] functions[k]) {
                Typing::Has(ty) => functions[k].return_annotation == Some(ty),
                Typing::Open => true,
                Typing::Wrong => false,
            },
        (forall|k: int|
            i <= k < functions.len() ==> distinct_params(#[trigger] functions[k]) && (body_typing(
                known,
                functions[k],
            ) matches Typing::Has(ty) && functions[k].return_annotation == Some(ty))) ==> (
        functions_checked(known.env, types, functions, i, needs).1 matches Err(message) ==> exists|
            k: int,
        |
            i <= k < functions.len() && about_effects(
                #[trigger] functions[k],
                known.env.signatures[functions[k].name],
                message,
            )),
    decreases functions.len() - i,
{
    if i < functions.len() {
        assert(signed(known, functions[i]));
        lemma_function_typed(known, types, functions[i]);
        lemma_ready(known.env, known.types, Map::empty(), types);
        lemma_function_checked(known, types, functions[i]);
        let (one, result) = function_checked(known.env, types, functions[i]);
        lemma_kept_twice(known.types, types, one);
        if let Ok(capabilities) = result {
            lemma_functions_typed(
                known,
                one,
                functions,
                i + 1,
                needs.insert(functions[i].name, capabilities),
            );
        }
    }
}

/// Soundness: the body of each function of an accepted program has the type of its annotation,
/// unless a type parameter is left open in it.
pub proof fn law_sound(
    program: ProgramView,
    platform: PlatformView,
    mode: CheckMode,
    typed: TypedProgramView,
    k: int,
)
    requires
        program_checked(program, platform, mode) == Ok::<TypedProgramView, Seq<char>>(typed),
        0 <= k < functions_of(program).len(),
    ensures
        match body_typing(program_registered(program, platform).0, functions_of(program)[k]) {
            Typing::Has(ty) => functions_of(program)[k].return_annotation == Some(ty),
            Typing::Open => true,
            Typing::Wrong => false,
        },
{
    let known = program_registered(program, platform).0;
    let functions = functions_of(program);
    law_registered(program, platform);
    lemma_functions_typed(known, known.types, functions, 0, Map::empty());
    assert(functions[k] == functions_of(program)[k]);
}

/// Completeness: where the body of each function has the type of its annotation, and no parameter
/// stands twice, the bodies are rejected for their effects only.
pub proof fn law_complete(program: ProgramView, platform: PlatformView)
    requires
        program_registered(program, platform).1 is Ok,
        forall|k: int|
            0 <= k < functions_of(program).len() ==> distinct_params(
                #[trigger] functions_of(program)[k],
            ) && (body_typing(
                program_registered(program, platform).0,
                functions_of(program)[k],
            ) matches Typing::Has(ty) && functions_of(program)[k].return_annotation == Some(ty)),
    ensures
        ({
            let known = program_registered(program, platform).0;
            let functions = functions_of(program);
            functions_checked(known.env, known.types, functions, 0, Map::empty()).1 matches Err(
                message,
            ) ==> exists|k: int|
                0 <= k < functions.len() && about_effects(
                    #[trigger] functions[k],
                    known.env.signatures[functions[k].name],
                    message,
                )
        }),
{
    let known = program_registered(program, platform).0;
    law_registered(program, platform);
    lemma_functions_typed(known, known.types, functions_of(program), 0, Map::empty());
}

} // verus!
