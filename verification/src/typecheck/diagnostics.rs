//! What the checker says of expressions that it refuses.
use vstd::prelude::*;

use crate::ast::{
    BlockItemView, EnumDeclView, ExprView, FunctionView, ImportOrigin, ImportView, MatchArmView,
    PrimType, StructDeclView, TopLevelItemView, TypeView,
};
use crate::platform::PlatformView;
use crate::typecheck::imports::{law_import_target, lemma_no_capability};
use crate::capability::{has_rank, law_missing, law_missing_names, Capability};
use crate::text::{decimal, joined};
use crate::typecheck::model::{
    arms_checked, call_checked, constructor_checked, expr_checked, value_call_checked, item_checked,
    matched, type_validated, unified, Capabilities, Env, Info, Scope, Signature, Types,
};
use crate::typecheck::program::{
    effects_checked, function_registered, import_registered, item_declared, Known,
};
use crate::typecheck::soundness::{has_type, law_covering};
use crate::typecheck::typing::{covering, takes_arguments, valid};
use crate::types::type_text;

verus! {

/// A name that stands for nothing.
pub proof fn law_unknown_name(
    env: Env,
    types: Types,
    scope: Scope,
    name: Seq<char>,
    args: Seq<ExprView>,
)
    requires
        !scope.contains_key(name),
        !env.variants.contains_key(name),
        !env.signatures.contains_key(name),
    ensures
        expr_checked(env, types, scope, ExprView::Var(name)).1 == Err::<Info, Seq<char>>(
            "unknown local binding `"@ + name + "`"@,
        ),
        expr_checked(env, types, scope, ExprView::Call { name, args }).1 == Err::<Info, Seq<char>>(
            "unknown function `"@ + name + "`"@,
        ),
{
    let call = ExprView::Call { name, args };
    assert(expr_checked(env, types, scope, call) == call_checked(env, types, scope, name, args));
}

/// A function that is called with a wrong number of arguments.
pub proof fn law_wrong_count(
    env: Env,
    types: Types,
    scope: Scope,
    name: Seq<char>,
    args: Seq<ExprView>,
)
    requires
        !scope.contains_key(name),
        !env.variants.contains_key(name),
        env.signatures.contains_key(name),
        args.len() != env.signatures[name].params.len(),
    ensures
        expr_checked(env, types, scope, ExprView::Call { name, args }).1 == Err::<Info, Seq<char>>(
            "function `"@ + name + "` expects "@ + decimal(env.signatures[name].params.len())
                + " argument(s), got "@ + decimal(args.len()),
        ),
{
    let call = ExprView::Call { name, args };
    assert(expr_checked(env, types, scope, call) == call_checked(env, types, scope, name, args));
}

/// A function value that is called with a wrong number of arguments, and another value that is
/// called.
pub proof fn law_wrong_value(
    env: Env,
    types: Types,
    scope: Scope,
    name: Seq<char>,
    args: Seq<ExprView>,
    ty: TypeView,
)
    requires
        !env.variants.contains_key(name),
        scope.contains_key(name),
        types.value_of(scope[name]) == Some(ty),
    ensures
        (ty matches TypeView::Function(function) && function.params.len() != args.len())
            ==> expr_checked(env, types, scope, ExprView::Call { name, args }).1 == Err::<
            Info,
            Seq<char>,
        >(
            "function value `"@ + name + "` expects "@ + decimal(ty->Function_0.params.len())
                + " argument(s), got "@ + decimal(args.len()),
        ),
        !(ty is Function) ==> expr_checked(env, types, scope, ExprView::Call { name, args }).1
            == Err::<Info, Seq<char>>("`"@ + name + "` is not callable"@),
{
    let call = ExprView::Call { name, args };
    assert(expr_checked(env, types, scope, call) == value_call_checked(
        env,
        types,
        scope,
        name,
        scope[name],
        args,
    ));
}

/// A variant that is not used with the payload that it has.
pub proof fn law_wrong_payload(
    env: Env,
    types: Types,
    scope: Scope,
    name: Seq<char>,
    args: Seq<ExprView>,
)
    requires
        env.variants.contains_key(name),
    ensures
        env.variants[name].payload is None ==> expr_checked(
            env,
            types,
            scope,
            ExprView::Call { name, args },
        ).1 == Err::<Info, Seq<char>>("enum variant `"@ + name + "` does not take a payload"@),
        env.variants[name].payload is Some && args.len() != 1 ==> expr_checked(
            env,
            types,
            scope,
            ExprView::Call { name, args },
        ).1 == Err::<Info, Seq<char>>(
            "enum variant `"@ + name + "` expects 1 payload argument, got "@ + decimal(args.len()),
        ),
        env.variants[name].payload is Some && !scope.contains_key(name) ==> expr_checked(
            env,
            types,
            scope,
            ExprView::Var(name),
        ).1 == Err::<Info, Seq<char>>("enum variant `"@ + name + "` requires a payload"@),
{
    let call = ExprView::Call { name, args };
    assert(expr_checked(env, types, scope, call) == constructor_checked(
        env,
        types,
        scope,
        name,
        env.variants[name],
        args,
    ));
}

/// A struct that is not declared, or has another field.
pub proof fn law_wrong_struct(
    env: Env,
    types: Types,
    scope: Scope,
    name: Seq<char>,
    field: Seq<char>,
    value: Box<ExprView>,
)
    ensures
        !env.structs.contains_key(name) ==> expr_checked(
            env,
            types,
            scope,
            ExprView::StructLiteral { name, field, value },
        ).1 == Err::<Info, Seq<char>>("unknown struct `"@ + name + "`"@),
        env.structs.contains_key(name) && env.structs[name].field.name != field ==> expr_checked(
            env,
            types,
            scope,
            ExprView::StructLiteral { name, field, value },
        ).1 == Err::<Info, Seq<char>>(
            "struct `"@ + name + "` does not have field `"@ + field + "`"@,
        ),
{
}

/// Two types without open parameters that differ.
pub proof fn law_mismatch(types: Types, a: int, b: int, left: TypeView, right: TypeView)
    requires
        types.wf(),
        has_type(types, a, left),
        has_type(types, b, right),
        left != right,
    ensures
        unified(types, a, b).1 == Err::<(), Seq<char>>(
            "type mismatch: expected "@ + type_text(left) + ", got "@ + type_text(right),
        ),
{
}

/// A match without arms, and one that leaves values out.
pub proof fn law_refused_match(
    env: Env,
    types: Types,
    scope: Scope,
    scrutinee: Info,
    expected: TypeView,
    arms: Seq<MatchArmView>,
)
    requires
        types.value_of(scrutinee.ty) == Some(expected),
        arms_checked(env, types, scope, arms, 0, expected, None, scrutinee).1 is Ok,
        !covering(env, expected, arms),
    ensures
        matched(env, types, scope, scrutinee, arms).1 == Err::<Info, Seq<char>>(
            "match expression is not exhaustive"@,
        ),
{
    law_covering(env, expected, arms);
}

/// A match without arms.
pub proof fn law_no_arms(env: Env, types: Types, scope: Scope, scrutinee: Box<ExprView>)
    ensures
        expr_checked(
            env,
            types,
            scope,
            ExprView::Match { scrutinee, arms: Seq::empty() },
        ).1 == Err::<Info, Seq<char>>("match expression must have at least one arm"@),
{
}

/// A binding of a name that is bound already, and one without a type.
pub proof fn law_refused_binding(
    env: Env,
    types: Types,
    scope: Scope,
    name: Seq<char>,
    ty: Option<TypeView>,
    expr: ExprView,
)
    ensures
        scope.contains_key(name) ==> item_checked(
            env,
            types,
            scope,
            BlockItemView::Binding { name, ty, expr },
        ).1 == Err::<Info, Seq<char>>("duplicate binding `"@ + name + "` in the same block"@),
        !scope.contains_key(name) && ty is None && expr_checked(env, types, scope, expr).1 is Ok
            ==> item_checked(env, types, scope, BlockItemView::Binding { name, ty, expr }).1 == Err::<
            Info,
            Seq<char>,
        >("binding `"@ + name + "` must have a type annotation"@),
{
}

/// A function without a mark whose body has effects, and one whose body needs more than it
/// declares: the diagnostic names what is missing, in order.
pub proof fn law_refused_effects(name: Seq<char>, signature: Signature, body: Info)
    ensures
        !signature.effectful && body.effectful ==> effects_checked(name, signature, body) == Err::<
            Capabilities,
            Seq<char>,
        >("pure function `"@ + name + "` cannot contain unhandled effects"@),
        (signature.effectful || !body.effectful) ==> (signature.declared matches Some(declared) ==> (
        exists|i: int|
            0 <= i < body.capabilities.len() && !has_rank(
                declared,
                (#[trigger] body.capabilities[i]).rank,
            )) ==> effects_checked(name, signature, body) == Err::<Capabilities, Seq<char>>(
            "function `"@ + name + "` uses capability outside #[requires(...)]: "@ + joined(
                body.capabilities.filter(
                    |capability: Capability| !has_rank(declared, capability.rank),
                ).map_values(|capability: Capability| capability.name@),
                ", "@,
            ),
        )),
{
    if let Some(declared) = signature.declared {
        law_missing(body.capabilities, declared);
        law_missing_names(body.capabilities, declared);
    }
}

/// How types are shown.
pub proof fn law_shown(ty: TypeView)
    ensures
        ty matches TypeView::Prim(prim) ==> type_text(ty) == match prim {
            PrimType::I32 => "Prim(I32)"@,
            PrimType::Bool => "Prim(Bool)"@,
            PrimType::String => "Prim(String)"@,
            PrimType::Unit => "Prim(Unit)"@,
        },
{
    reveal_strlit("Prim(");
    reveal_strlit(")");
    reveal_strlit("I32");
    reveal_strlit("Bool");
    reveal_strlit("String");
    reveal_strlit("Unit");
    reveal_strlit("Prim(I32)");
    reveal_strlit("Prim(Bool)");
    reveal_strlit("Prim(String)");
    reveal_strlit("Prim(Unit)");
    assert("Prim("@ + "I32"@ + ")"@ =~= "Prim(I32)"@);
    assert("Prim("@ + "Bool"@ + ")"@ =~= "Prim(Bool)"@);
    assert("Prim("@ + "String"@ + ")"@ =~= "Prim(String)"@);
    assert("Prim("@ + "Unit"@ + ")"@ =~= "Prim(Unit)"@);
}

/// A type that is declared twice, and an enum without variants.
pub proof fn law_refused_type(env: Env, structure: StructDeclView, choice: EnumDeclView)
    ensures
        env.structs.contains_key(structure.name) || env.enums.contains_key(structure.name)
            ==> item_declared(env, TopLevelItemView::Struct(structure)).1 == Err::<(), Seq<char>>(
            "duplicate type `"@ + structure.name + "`"@,
        ),
        choice.variants.len() == 0 ==> item_declared(env, TopLevelItemView::Enum(choice)).1
            == Err::<(), Seq<char>>(
            "enum `"@ + choice.name + "` must declare at least one variant"@,
        ),
        choice.variants.len() > 0 && (env.structs.contains_key(choice.name)
            || env.enums.contains_key(choice.name)) ==> item_declared(
            env,
            TopLevelItemView::Enum(choice),
        ).1 == Err::<(), Seq<char>>("duplicate type `"@ + choice.name + "`"@),
{
}

/// An import of a function of the platform by a user, one that is made twice, and one of a function
/// that is not offered.
pub proof fn law_refused_import(platform: PlatformView, known: Known, import: ImportView)
    ensures
        ({
            let reserved = import.origin == ImportOrigin::User && import.path.len() > 0
                && import.path[0] == "platform"@;
            let text = joined(import.path.push(import.name), "."@);
            let refused = import_registered(platform, known, import).1;
            &&& reserved ==> refused == Err::<(), Seq<char>>(
                "platform import `"@ + text + "` is only available to stdlib"@,
            )
            &&& !reserved && known.env.signatures.contains_key(import.name) ==> refused == Err::<
                (),
                Seq<char>,
            >("duplicate imported function `"@ + import.name + "`"@)
            &&& !reserved && !known.env.signatures.contains_key(import.name) && (forall|m: int|
                0 <= m < platform.externs.len() ==> (#[trigger] platform.externs[m]).path
                    != import.path || platform.externs[m].name != import.name) ==> refused == Err::<
                (),
                Seq<char>,
            >("unknown external import `"@ + text + "`"@)
        }),
{
    law_import_target(platform.externs, import.path, import.name);
}

/// A function that is declared twice, and one that declares capabilities but is not marked.
pub proof fn law_refused_function(known: Known, function: FunctionView)
    ensures
        known.env.signatures.contains_key(function.name) ==> function_registered(
            known,
            function,
        ).1 == Err::<(), Seq<char>>("duplicate top-level function `"@ + function.name + "`"@),
        !known.env.signatures.contains_key(function.name) && (function.required matches Some(list)
            && list.len() > 0) && !(function.name.len() > 0 && function.name.last() == '!')
            ==> function_registered(known, function).1 == Err::<(), Seq<char>>(
            "function `"@ + function.name
                + "` requires platform capabilities and must be marked with !"@,
        ),
{
    if let Some(list) = function.required {
        lemma_no_capability(list);
    }
}

/// A type that is not declared, a type parameter that is not in scope, and a wrong number of type
/// arguments.
pub proof fn law_refused_annotation(
    env: Env,
    name: Seq<char>,
    args: Seq<TypeView>,
    params: Seq<Seq<char>>,
)
    ensures
        !valid(env, TypeView::Named(name), params) ==> type_validated(
            env,
            TypeView::Named(name),
            params,
        ) == Err::<(), Seq<char>>("unknown type `"@ + name + "`"@),
        !params.contains(name) ==> type_validated(env, TypeView::GenericParam(name), params)
            == Err::<(), Seq<char>>("unknown type parameter `"@ + name + "`"@),
        (forall|count: nat| !takes_arguments(env, name, count)) ==> type_validated(
            env,
            TypeView::Apply { name, args },
            params,
        ) == Err::<(), Seq<char>>("unknown generic type `"@ + name + "`"@),
        forall|count: nat| #[trigger]
            takes_arguments(env, name, count) && count != args.len() ==> type_validated(
                env,
                TypeView::Apply { name, args },
                params,
            ) == Err::<(), Seq<char>>(
                "generic type `"@ + name + "` expects "@ + decimal(count)
                    + " type argument(s), got "@ + decimal(args.len()),
            ),
{
    if name == "Result"@ {
        assert(takes_arguments(env, name, 2));
    } else if env.structs.contains_key(name) {
        let count = env.structs[name].type_params.len();
        assert(takes_arguments(env, name, count));
    } else if env.enums.contains_key(name) {
        let count = env.enums[name].type_params.len();
        assert(takes_arguments(env, name, count));
    }
}

} // verus!
