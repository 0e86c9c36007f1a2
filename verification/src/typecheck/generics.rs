//! Type parameters, and the types that take their places.
use vstd::prelude::*;

use crate::ast::{BinaryOp, PatternView, PrimType, TypeView};
use crate::typecheck::model::{
    constrained, constructed, field_checked, literal_checked, method_selected, operator_name,
    pattern_checked, unified, Env, Info, Scope, Types, Variant,
};
use crate::typecheck::soundness::{has_type, lemma_constrained_typed, lemma_method_names};
use crate::typecheck::substitution::{
    all_substituted, consistent, covers, covers_all, covers_function, function_substituted,
    inferred, is_generic, lemma_consistent, lemma_inferred, paired, pairing, substitute,
    substituted, Substitution,
};
use crate::typecheck::typing::payload_type;

verus! {

/// The type `actual` is the type `ty` with the types of the substitution in place of its
/// parameters, and nothing else changed.
pub open spec fn instance(ty: TypeView, actual: TypeView, substitution: Substitution) -> bool
    decreases ty,
{
    match ty {
        TypeView::GenericParam(name) => if substitution.contains_key(name) {
            actual == substitution[name]
        } else {
            actual == ty
        },
        TypeView::Apply { name, args } => actual matches TypeView::Apply {
            name: applied,
            args: others,
        } && applied == name && args.len() == others.len() && forall|i: int|
            0 <= i < args.len() ==> instance(#[trigger] args[i], others[i], substitution),
        TypeView::Function(function) => actual matches TypeView::Function(other) && {
            &&& function.params.len() == other.params.len()
            &&& forall|i: int|
                0 <= i < function.params.len() ==> instance(
                    #[trigger] function.params[i],
                    other.params[i],
                    substitution,
                )
            &&& instance(*function.ret, *other.ret, substitution)
            &&& function.effectful == other.effectful
        },
        TypeView::Prim(_) | TypeView::Named(_) => actual == ty,
    }
}

/// A substitution gives an instance of the type.
pub proof fn law_instance(ty: TypeView, substitution: Substitution)
    ensures
        instance(ty, substituted(ty, substitution), substitution),
    decreases ty,
{
    match ty {
        TypeView::Apply { name, args } => {
            let others = all_substituted(args, substitution);
            assert forall|i: int| 0 <= i < args.len() implies instance(
                #[trigger] args[i],
                others[i],
                substitution,
            ) by {
                law_instance(args[i], substitution);
            }
        },
        TypeView::Function(function) => {
            let other = function_substituted(function, substitution);
            assert forall|i: int| 0 <= i < function.params.len() implies instance(
                #[trigger] function.params[i],
                other.params[i],
                substitution,
            ) by {
                law_instance(function.params[i], substitution);
            }
            law_instance(*function.ret, substitution);
        },
        _ => {},
    }
}

/// The parameter occurs in the type.
pub open spec fn occurs(name: Seq<char>, ty: TypeView) -> bool
    decreases ty,
{
    match ty {
        TypeView::GenericParam(other) => other == name,
        TypeView::Apply { args, .. } => exists|i: int|
            0 <= i < args.len() && occurs(name, #[trigger] args[i]),
        TypeView::Function(function) => {
            ||| exists|i: int|
                0 <= i < function.params.len() && occurs(name, #[trigger] function.params[i])
            ||| occurs(name, *function.ret)
        },
        TypeView::Prim(_) | TypeView::Named(_) => false,
    }
}

proof fn lemma_covers(substitution: Substitution, ty: TypeView, name: Seq<char>)
    requires
        covers(substitution, ty),
        occurs(name, ty),
    ensures
        substitution.contains_key(name),
    decreases ty,
{
    match ty {
        TypeView::Apply { args, .. } => {
            let i = choose|i: int| 0 <= i < args.len() && occurs(name, #[trigger] args[i]);
            lemma_covers_each(substitution, args, args.len() as int, i);
            lemma_covers(substitution, args[i], name);
        },
        TypeView::Function(function) => {
            assert(covers_function(substitution, function));
            if exists|i: int|
                0 <= i < function.params.len() && occurs(name, #[trigger] function.params[i]) {
                let i = choose|i: int|
                    0 <= i < function.params.len() && occurs(name, #[trigger] function.params[i]);
                lemma_covers_each(
                    substitution,
                    function.params,
                    function.params.len() as int,
                    i,
                );
                lemma_covers(substitution, function.params[i], name);
            } else {
                lemma_covers(substitution, *function.ret, name);
            }
        },
        _ => {},
    }
}

proof fn lemma_covers_each(substitution: Substitution, list: Seq<TypeView>, n: int, i: int)
    requires
        covers_all(substitution, list, n),
        0 <= i < n <= list.len(),
    ensures
        covers(substitution, list[i]),
    decreases n,
{
    if i < n - 1 {
        lemma_covers_each(substitution, list, n - 1, i);
    }
}

/// Two slots of which one has a type with open parameters are unified, and then both have the type
/// of the other one.
pub proof fn law_unified_open(types: Types, a: int, b: int, left: TypeView, right: TypeView)
    requires
        types.wf(),
        types.has(a),
        types.has(b),
        !types.same(a, b),
        types.value_of(a) == Some(left),
        types.value_of(b) == Some(right),
        is_generic(left) || is_generic(right),
    ensures
        unified(types, a, b).1 is Ok,
        unified(types, a, b).0.same(a, b),
        unified(types, a, b).0.value_of(a) == Some(
            if is_generic(left) {
                right
            } else {
                left
            },
        ),
{
    assert(types.has(types.roots[a]) && types.has(types.roots[b]));
}

/// A slot whose type is not known takes on the type of the slot that it is unified with.
pub proof fn law_unified_unknown(types: Types, a: int, b: int)
    requires
        types.wf(),
        types.has(a),
        types.has(b),
        types.value_of(a) is None || types.value_of(b) is None,
    ensures
        unified(types, a, b).1 is Ok,
        unified(types, a, b).0.same(a, b),
        unified(types, a, b).0.value_of(a) == if types.value_of(a) is None {
            types.value_of(b)
        } else {
            types.value_of(a)
        },
{
    assert(types.has(types.roots[a]) && types.has(types.roots[b]));
}

/// A variant takes a payload that is an instance of its declared one. The value is of the enum, and
/// each type parameter of the enum that occurs in the payload has the type that it has in the
/// instance.
pub proof fn law_constructed(
    types: Types,
    variant: Variant,
    arg: Info,
    substitution: Substitution,
)
    requires
        types.wf(),
        variant.payload is Some,
        has_type(types, arg.ty, substituted(variant.payload->Some_0, substitution)),
    ensures
        ({
            let params = variant.enum_type_params;
            let (after, result) = constructed(types, variant, arg);
            result matches Ok(info) && {
                &&& info.effectful == arg.effectful
                &&& info.capabilities == arg.capabilities
                &&& params.len() == 0 ==> after.value_of(info.ty) == Some(
                    TypeView::Named(variant.enum_name),
                )
                &&& params.len() > 0 ==> (after.value_of(info.ty) matches Some(
                    TypeView::Apply { name, args },
                ) && name == variant.enum_name && args.len() == params.len() && forall|i: int|
                    0 <= i < params.len() && occurs(#[trigger] params[i], variant.payload->Some_0)
                        ==> args[i] == substitute(substitution, params[i]))
            }
        }),
{
    let payload = variant.payload->Some_0;
    let params = variant.enum_type_params;
    let actual = substituted(payload, substitution);
    let found = inferred(payload, actual, Map::empty());
    lemma_inferred(payload, substitution, Map::empty());
    lemma_consistent(found, substitution, payload);
    lemma_constrained_typed(types, arg.ty, actual, actual);
    assert forall|i: int| 0 <= i < params.len() && occurs(#[trigger] params[i], payload) implies
        substitute(found, params[i]) == substitute(substitution, params[i]) by {
        lemma_covers(found, payload, params[i]);
    }
}

/// A pattern takes out of a variant what was put into it: with the types of an instance for the
/// type parameters of the enum, the type of the payload is that of the instance.
pub proof fn law_taken_out(variant: Variant, args: Seq<TypeView>, substitution: Substitution)
    requires
        variant.payload is Some,
        args.len() == variant.enum_type_params.len(),
        forall|i: int|
            0 <= i < args.len() ==> #[trigger] args[i] == substitute(
                substitution,
                variant.enum_type_params[i],
            ),
        covers(pairing(variant.enum_type_params, args), variant.payload->Some_0),
    ensures
        payload_type(variant, TypeView::Apply { name: variant.enum_name, args }) == substituted(
            variant.payload->Some_0,
            substitution,
        ),
{
    let params = variant.enum_type_params;
    lemma_paired(params, args, params.len() as int, substitution);
    lemma_consistent(pairing(params, args), substitution, variant.payload->Some_0);
}

proof fn lemma_paired(
    params: Seq<Seq<char>>,
    args: Seq<TypeView>,
    n: int,
    substitution: Substitution,
)
    requires
        0 <= n <= params.len(),
        args.len() == params.len(),
        forall|i: int|
            0 <= i < args.len() ==> #[trigger] args[i] == substitute(substitution, params[i]),
    ensures
        consistent(paired(params, args, n), substitution),
    decreases n,
{
    if n > 0 {
        lemma_paired(params, args, n - 1, substitution);
        assert(args[n - 1] == substitute(substitution, params[n - 1]));
    }
}

/// A slot with a type, open or not, is constrained to a type where the two are the same or one is
/// open, and then has the type that is not.
pub proof fn law_constrained_open(types: Types, id: int, actual: TypeView, ty: TypeView)
    requires
        types.wf(),
        types.has(id),
        types.value_of(id) == Some(actual),
        is_generic(actual) || is_generic(ty),
    ensures
        constrained(types, id, ty).1 is Ok,
        constrained(types, id, ty).0.value_of(id) == Some(
            if is_generic(actual) {
                ty
            } else {
                actual
            },
        ),
{
    let one = types.with(Some(ty));
    assert(types.has(types.roots[id]));
    assert(one.wf()) by {
        assert forall|i: int| #[trigger] one.has(i) implies one.has(one.roots[i])
            && one.roots[one.roots[i]] == one.roots[i] by {
            if i < types.len() {
                assert(types.has(i));
                assert(types.has(types.roots[i]));
            }
        }
    }
    law_unified_open(one, id, types.len(), actual, ty);
}

/// A struct whose field has a type with open parameters takes any value.
pub proof fn law_open_field(env: Env, types: Types, name: Seq<char>, value: Info, actual: TypeView)
    requires
        types.wf(),
        types.has(value.ty),
        types.value_of(value.ty) == Some(actual),
        is_generic(env.structs[name].field.ty),
    ensures
        literal_checked(env, types, name, value).1 matches Ok(info) && literal_checked(
            env,
            types,
            name,
            value,
        ).0.value_of(info.ty) == Some(TypeView::Named(name)),
{
    law_constrained_open(types, value.ty, actual, env.structs[name].field.ty);
}

/// The field of a value of a struct has the declared type, open or not.
pub proof fn law_field(env: Env, types: Types, receiver: Info, name: Seq<char>, field: Seq<char>)
    requires
        types.wf(),
        types.value_of(receiver.ty) == Some(TypeView::Named(name)),
        env.structs.contains_key(name),
        env.structs[name].field.name == field,
    ensures
        field_checked(env, types, receiver, field).1 matches Ok(info) && info.effectful
            == receiver.effectful && info.capabilities == receiver.capabilities && field_checked(
            env,
            types,
            receiver,
            field,
        ).0.value_of(info.ty) == Some(env.structs[name].field.ty),
{
}

/// A name in a pattern is bound to the whole value, of whatever type it is.
pub proof fn law_bound_name(
    env: Env,
    types: Types,
    scope: Scope,
    name: Seq<char>,
    expected: TypeView,
)
    requires
        types.wf(),
        !scope.contains_key(name),
    ensures
        ({
            let (after, names) = pattern_checked(
                env,
                types,
                scope,
                PatternView::Var(name),
                expected,
            );
            names matches Ok(names) && names.dom() == scope.dom().insert(name) && after.value_of(
                names[name],
            ) == Some(expected)
        }),
{
    let (after, names) = pattern_checked(env, types, scope, PatternView::Var(name), expected);
    assert(names->Ok_0.dom() =~= scope.dom().insert(name));
}

/// A value of an open type is a number where it is added, subtracted, multiplied or ordered, and
/// is not compared for equality.
pub proof fn law_open_operand(types: Types, receiver: Info, actual: TypeView, op: BinaryOp)
    requires
        types.wf(),
        types.has(receiver.ty),
        types.value_of(receiver.ty) == Some(actual),
        is_generic(actual),
    ensures
        op != BinaryOp::Eq ==> (method_selected(types, receiver, operator_name(op), 1).1 matches Ok(
            method,
        ) && method.operand == Some(PrimType::I32) && method.ret == if op == BinaryOp::Lt {
            PrimType::Bool
        } else {
            PrimType::I32
        }),
        op == BinaryOp::Eq ==> method_selected(types, receiver, operator_name(op), 1).1 is Err,
{
    lemma_method_names();
    law_constrained_open(types, receiver.ty, actual, TypeView::Prim(PrimType::I32));
}

} // verus!
