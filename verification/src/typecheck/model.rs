//! What the type checker does: the slots it makes, the types it finds for them, the effects and
//! capabilities it collects, and the diagnostic it stops with.
use vstd::prelude::*;

use crate::ast::{
    BinaryOp, BlockItemView, BlockView, EnumDeclView, EnumVariantView, ExprView, FunctionTypeView,
    MatchArmView, PatternView, PrimType, StructDeclView, TypeView,
};
use crate::capability::{union_of, Capability};
use crate::error::Outcome;
use crate::slots::Store;
use crate::text::{decimal, quoted, quoted_twice};
use crate::typecheck::substitution::{
    inferred, is_generic, pairing, substitute, substituted, Substitution,
};
use crate::types::type_text;

verus! {

/// What is known of the types of the slots.
pub type Types = Store<TypeView>;

/// What is known after a step, and what the step returns.
pub type Checked<T> = (Types, Outcome<T>);

/// A set of capabilities, in the order of their ranks.
pub type Capabilities = Seq<Capability>;

/// The slots of the names in scope.
pub type Scope = Map<Seq<char>, int>;

/// A function: the slots of its parameters and of its result, whether it has effects, and the
/// capabilities that it declares.
pub struct Signature {
    pub params: Seq<int>,
    pub ret: int,
    pub effectful: bool,
    pub declared: Option<Capabilities>,
}

/// A variant of an enum.
pub struct Variant {
    pub enum_name: Seq<char>,
    pub enum_type_params: Seq<Seq<char>>,
    pub payload: Option<TypeView>,
}

/// The slot of the type of an expression, whether the expression has effects, and the capabilities
/// that it needs.
pub struct Info {
    pub ty: int,
    pub effectful: bool,
    pub capabilities: Capabilities,
}

/// What is declared.
pub struct Env {
    pub structs: Map<Seq<char>, StructDeclView>,
    pub enums: Map<Seq<char>, EnumDeclView>,
    pub variants: Map<Seq<char>, Variant>,
    pub signatures: Map<Seq<char>, Signature>,
}

pub open spec fn mismatch_text(left: TypeView, right: TypeView) -> Seq<char> {
    "type mismatch: expected "@ + type_text(left) + ", got "@ + type_text(right)
}

/// The diagnostic of a wrong number of arguments.
pub open spec fn arity_text(
    before: Seq<char>,
    name: Seq<char>,
    between: Seq<char>,
    wanted: nat,
    after: Seq<char>,
    given: nat,
) -> Seq<char> {
    before + name + between + decimal(wanted) + after + decimal(given)
}

pub open spec fn call_arity_text(
    before: Seq<char>,
    name: Seq<char>,
    wanted: nat,
    given: nat,
) -> Seq<char> {
    arity_text(before, name, "` expects "@, wanted, " argument(s), got "@, given)
}

/// An expression without effects.
pub open spec fn plain(ty: int) -> Info {
    Info { ty, effectful: false, capabilities: Seq::empty() }
}

/// The effects and capabilities of two expressions, with the slot of the first.
pub open spec fn absorbed(info: Info, more: Info) -> Info {
    Info {
        ty: info.ty,
        effectful: info.effectful || more.effectful,
        capabilities: union_of(info.capabilities, more.capabilities),
    }
}

/// Effects and capabilities of what has no type of its own.
pub open spec fn effects(effectful: bool, capabilities: Capabilities) -> Info {
    Info { ty: 0, effectful, capabilities }
}

pub open spec fn at_slot(info: Info, ty: int) -> Info {
    Info { ty, effectful: info.effectful, capabilities: info.capabilities }
}

/// An expression of a known type, without effects.
pub open spec fn known(types: Types, ty: TypeView) -> Checked<Info> {
    (types.with(Some(ty)), Ok(plain(types.len())))
}

/// An expression of a known type, with the effects of another.
pub open spec fn known_with(types: Types, ty: TypeView, info: Info) -> Checked<Info> {
    (types.with(Some(ty)), Ok(at_slot(info, types.len())))
}

/// The slots `a` and `b` have the same type. Where the type of one has parameters left open, that
/// of the other takes its place.
pub open spec fn unified(types: Types, a: int, b: int) -> Checked<()> {
    let ra = types.roots[a];
    let rb = types.roots[b];
    if ra == rb {
        (types, Ok(()))
    } else {
        match (types.values[ra], types.values[rb]) {
            (Some(left), Some(right)) => if is_generic(left) {
                (types.assigned(ra, right).linked(rb, ra), Ok(()))
            } else if is_generic(right) {
                (types.assigned(rb, left).linked(ra, rb), Ok(()))
            } else if left != right {
                (types, Err(mismatch_text(left, right)))
            } else {
                (types.linked(rb, ra), Ok(()))
            },
            (None, Some(_)) => (types.linked(ra, rb), Ok(())),
            _ => (types.linked(rb, ra), Ok(())),
        }
    }
}

/// The slot `id` has the type `ty`.
pub open spec fn constrained(types: Types, id: int, ty: TypeView) -> Checked<()> {
    unified(types.with(Some(ty)), id, types.len())
}

/// The type of the slot `id`, which is owed to `label`.
pub open spec fn resolved(types: Types, id: int, label: Seq<char>) -> Outcome<TypeView> {
    match types.value_of(id) {
        Some(ty) => Ok(ty),
        None => Err("could not infer "@ + label),
    }
}

/// The types of the slots of `ids` from `i` on.
pub open spec fn all_resolved(
    types: Types,
    ids: Seq<int>,
    i: int,
    label: Seq<char>,
) -> Outcome<Seq<TypeView>>
    decreases ids.len() - i,
{
    if i >= ids.len() {
        Ok(Seq::empty())
    } else {
        match resolved(types, ids[i], label) {
            Err(message) => Err(message),
            Ok(ty) => match all_resolved(types, ids, i + 1, label) {
                Err(message) => Err(message),
                Ok(rest) => Ok(seq![ty] + rest),
            },
        }
    }
}

/// The parameter and result types of a function.
pub open spec fn signature_resolved(
    types: Types,
    name: Seq<char>,
    signature: Signature,
) -> Outcome<FunctionTypeView> {
    match all_resolved(
        types,
        signature.params,
        0,
        quoted("parameter in `"@, name, "`"@),
    ) {
        Err(message) => Err(message),
        Ok(params) => match resolved(
            types,
            signature.ret,
            quoted("return type of `"@, name, "`"@),
        ) {
            Err(message) => Err(message),
            Ok(ret) => Ok(
                FunctionTypeView { params, ret: Box::new(ret), effectful: signature.effectful },
            ),
        },
    }
}

/// The type of a function as a value.
pub open spec fn function_value(env: Env, types: Types, name: Seq<char>) -> Option<TypeView> {
    if !env.signatures.contains_key(name) {
        None
    } else {
        match signature_resolved(types, name, env.signatures[name]) {
            Ok(function) => Some(TypeView::Function(function)),
            Err(_) => None,
        }
    }
}

/// The type of the values of an enum with these type arguments.
pub open spec fn enum_type(variant: Variant, args: Seq<TypeView>) -> TypeView {
    if args.len() == 0 {
        TypeView::Named(variant.enum_name)
    } else {
        TypeView::Apply { name: variant.enum_name, args }
    }
}

pub open spec fn var_checked(
    env: Env,
    types: Types,
    scope: Scope,
    name: Seq<char>,
) -> Checked<Info> {
    if scope.contains_key(name) {
        (types, Ok(plain(scope[name])))
    } else if env.variants.contains_key(name) {
        if env.variants[name].payload is Some {
            (types, Err(quoted("enum variant `"@, name, "` requires a payload"@)))
        } else {
            known(types, enum_type(env.variants[name], Seq::empty()))
        }
    } else {
        match function_value(env, types, name) {
            Some(ty) => known(types, ty),
            None => (types, Err(quoted("unknown local binding `"@, name, "`"@))),
        }
    }
}

/// The diagnostic of a variant that is not called with one payload.
pub open spec fn constructor_error(name: Seq<char>, variant: Variant, given: nat) -> Option<
    Seq<char>,
> {
    if variant.payload is None {
        Some(quoted("enum variant `"@, name, "` does not take a payload"@))
    } else if given != 1 {
        Some(
            quoted("enum variant `"@, name, "` expects 1 payload argument, got "@) + decimal(given),
        )
    } else {
        None
    }
}

/// The type arguments of an enum, as far as the payload tells them.
pub open spec fn result_arguments(params: Seq<Seq<char>>, found: Substitution) -> Seq<TypeView> {
    params.map_values(|param: Seq<char>| substitute(found, param))
}

/// A variant with a payload of the type of `arg`.
pub open spec fn constructed(types: Types, variant: Variant, arg: Info) -> Checked<Info> {
    let payload = variant.payload->Some_0;
    match resolved(types, arg.ty, "enum variant payload type"@) {
        Err(message) => (types, Err(message)),
        Ok(actual) => {
            let found = inferred(payload, actual, Map::empty());
            match constrained(types, arg.ty, substituted(payload, found)) {
                (types, Err(message)) => (types, Err(message)),
                (types, Ok(_)) => known_with(
                    types,
                    enum_type(variant, result_arguments(variant.enum_type_params, found)),
                    arg,
                ),
            }
        },
    }
}

/// The field of a value of a struct.
pub open spec fn field_checked(
    env: Env,
    types: Types,
    receiver: Info,
    field: Seq<char>,
) -> Checked<Info> {
    match resolved(types, receiver.ty, "field receiver type"@) {
        Err(message) => (types, Err(message)),
        Ok(TypeView::Named(name)) => if !env.structs.contains_key(name) {
            (types, Err(quoted("type `"@, name, "` has no fields"@)))
        } else if env.structs[name].field.name != field {
            (types, Err(no_field_text(name, field)))
        } else {
            known_with(types, env.structs[name].field.ty, receiver)
        },
        Ok(ty) => (
            types,
            Err(quoted_twice("type "@, type_text(ty), " does not have field `"@, field, "`"@)),
        ),
    }
}

pub open spec fn no_field_text(name: Seq<char>, field: Seq<char>) -> Seq<char> {
    quoted_twice("struct `"@, name, "` does not have field `"@, field, "`"@)
}

/// The diagnostic of a struct literal with an unknown name or field.
pub open spec fn literal_error(env: Env, name: Seq<char>, field: Seq<char>) -> Option<Seq<char>> {
    if !env.structs.contains_key(name) {
        Some(quoted("unknown struct `"@, name, "`"@))
    } else if env.structs[name].field.name != field {
        Some(no_field_text(name, field))
    } else {
        None
    }
}

/// A struct with the value in its field.
pub open spec fn literal_checked(
    env: Env,
    types: Types,
    name: Seq<char>,
    value: Info,
) -> Checked<Info> {
    match constrained(types, value.ty, env.structs[name].field.ty) {
        (types, Err(message)) => (types, Err(message)),
        (types, Ok(_)) => known_with(types, TypeView::Named(name), value),
    }
}

impl View for Method {
    type V = Method;

    open spec fn view(&self) -> Method {
        *self
    }
}

/// A method on primitive types: the type of its operands, where it is fixed, and of its result.
#[derive(Debug, Clone, Copy)]
pub struct Method {
    pub operand: Option<PrimType>,
    pub ret: PrimType,
}

pub open spec fn method_of(name: Seq<char>, receiver: Option<TypeView>) -> Outcome<Method> {
    if name == "add"@ || name == "sub"@ || name == "mul"@ {
        Ok(Method { operand: Some(PrimType::I32), ret: PrimType::I32 })
    } else if name == "lt"@ {
        Ok(Method { operand: Some(PrimType::I32), ret: PrimType::Bool })
    } else if name == "eq"@ {
        match receiver {
            Some(TypeView::Prim(PrimType::I32)) => Ok(
                Method { operand: Some(PrimType::I32), ret: PrimType::Bool },
            ),
            Some(TypeView::Prim(PrimType::Bool)) => Ok(
                Method { operand: Some(PrimType::Bool), ret: PrimType::Bool },
            ),
            Some(TypeView::Prim(PrimType::Unit)) => Err(
                "type Unit does not implement method `eq`"@,
            ),
            Some(other) => Err(
                quoted("type "@, type_text(other), " does not implement method `eq`"@),
            ),
            None => Ok(Method { operand: None, ret: PrimType::Bool }),
        }
    } else {
        let shown = match receiver {
            Some(ty) => type_text(ty),
            None => "unknown type"@,
        };
        Err(shown + quoted(" does not implement method `"@, name, "`"@))
    }
}

pub open spec fn operator_name(op: BinaryOp) -> Seq<char> {
    match op {
        BinaryOp::Add => "add"@,
        BinaryOp::Sub => "sub"@,
        BinaryOp::Mul => "mul"@,
        BinaryOp::Eq => "eq"@,
        BinaryOp::Lt => "lt"@,
    }
}

/// The method that is called, once the receiver has the type of its operands and one argument is
/// given.
pub open spec fn method_selected(
    types: Types,
    receiver: Info,
    name: Seq<char>,
    given: nat,
) -> Checked<Method> {
    match method_of(name, types.value_of(receiver.ty)) {
        Err(message) => (types, Err(message)),
        Ok(method) => {
            let (types, outcome) = match method.operand {
                Some(prim) => constrained(types, receiver.ty, TypeView::Prim(prim)),
                None => (types, Ok(())),
            };
            match outcome {
                Err(message) => (types, Err(message)),
                Ok(_) => if given != 1 {
                    (types, Err(call_arity_text("method `"@, name, 1, given)))
                } else {
                    (types, Ok(method))
                },
            }
        },
    }
}

/// A call of the method with one argument.
pub open spec fn method_applied(
    types: Types,
    receiver: Info,
    arg: Info,
    method: Method,
) -> Checked<Info> {
    let (types, outcome) = match method.operand {
        Some(prim) => constrained(types, arg.ty, TypeView::Prim(prim)),
        None => unified(types, receiver.ty, arg.ty),
    };
    match outcome {
        Err(message) => (types, Err(message)),
        Ok(_) => known_with(types, TypeView::Prim(method.ret), absorbed(receiver, arg)),
    }
}

/// The pattern is for values of the type.
pub open spec fn pattern_fits(expected: TypeView, actual: TypeView) -> Outcome<()> {
    if expected == actual {
        Ok(())
    } else {
        Err(mismatch_text(expected, actual))
    }
}

/// The type arguments of the enum of a variant in a pattern for values of the type `expected`.
pub open spec fn pattern_arguments(expected: TypeView, variant: Variant) -> Outcome<
    Seq<TypeView>,
> {
    if variant.enum_type_params.len() == 0 {
        match pattern_fits(expected, TypeView::Named(variant.enum_name)) {
            Err(message) => Err(message),
            Ok(_) => Ok(Seq::empty()),
        }
    } else {
        match expected {
            TypeView::Apply { name, args } => if name != variant.enum_name {
                Err(mismatch_text(enum_type(variant, args), expected))
            } else {
                Ok(args)
            },
            _ => Err(
                quoted(
                    "type mismatch: expected generic enum `"@,
                    variant.enum_name,
                    "`, got "@,
                ) + type_text(expected),
            ),
        }
    }
}

/// The scope with the names that a pattern for values of the type `expected` binds.
pub open spec fn pattern_checked(
    env: Env,
    types: Types,
    scope: Scope,
    pattern: PatternView,
    expected: TypeView,
) -> Checked<Scope>
    decreases pattern,
{
    match pattern {
        PatternView::Int(_) => (types, literal_fits(scope, expected, PrimType::I32)),
        PatternView::Bool(_) => (types, literal_fits(scope, expected, PrimType::Bool)),
        PatternView::Unit => (types, literal_fits(scope, expected, PrimType::Unit)),
        PatternView::Wildcard => (types, Ok(scope)),
        PatternView::Var(name) => if scope.contains_key(name) {
            (types, Err(quoted("pattern binding `"@, name, "` shadows an existing binding"@)))
        } else {
            (types.with(Some(expected)), Ok(scope.insert(name, types.len())))
        },
        PatternView::Variant { name, payload } => match pattern_opened(
            env,
            expected,
            name,
            payload is Some,
        ) {
            Err(message) => (types, Err(message)),
            Ok(None) => (types, Ok(scope)),
            Ok(Some(inner)) => pattern_checked(env, types, scope, *payload->Some_0, inner),
        },
    }
}

/// The scope after a pattern that is a literal of a primitive type.
pub open spec fn literal_fits(scope: Scope, expected: TypeView, prim: PrimType) -> Outcome<Scope> {
    match pattern_fits(expected, TypeView::Prim(prim)) {
        Err(message) => Err(message),
        Ok(_) => Ok(scope),
    }
}

/// The type of the payload of a variant in a pattern, where it has one.
pub open spec fn pattern_opened(
    env: Env,
    expected: TypeView,
    name: Seq<char>,
    has_payload: bool,
) -> Outcome<Option<TypeView>> {
    if !env.variants.contains_key(name) {
        Err(quoted("unknown enum variant `"@, name, "`"@))
    } else {
        let variant = env.variants[name];
        match pattern_arguments(expected, variant) {
            Err(message) => Err(message),
            Ok(args) => match pattern_fits(expected, enum_type(variant, args)) {
                Err(message) => Err(message),
                Ok(_) => match (variant.payload, has_payload) {
                    (Some(payload), true) => Ok(
                        Some(substituted(payload, pairing(variant.enum_type_params, args))),
                    ),
                    (Some(_), false) => Err(
                        quoted("enum variant `"@, name, "` pattern requires a payload"@),
                    ),
                    (None, true) => Err(
                        quoted("enum variant `"@, name, "` pattern does not take a payload"@),
                    ),
                    (None, false) => Ok(None),
                },
            },
        }
    }
}

/// The variants of an enum.
pub open spec fn variant_names(env: Env, name: Seq<char>) -> Option<Seq<Seq<char>>> {
    if name == "Result"@ {
        Some(seq!["Ok"@, "Err"@])
    } else if name == "PlatformError"@ {
        Some(platform_errors())
    } else if env.enums.contains_key(name) {
        Some(
            env.enums[name].variants.map_values(
                |variant: EnumVariantView| variant.name,
            ),
        )
    } else {
        None
    }
}

/// The variants of the enum of platform errors.
pub open spec fn platform_errors() -> Seq<Seq<char>> {
    seq!["Unsupported"@, "Unavailable"@, "Interrupted"@, "InvalidUtf8"@, "Unknown"@]
}

pub open spec fn has_pattern(arms: Seq<MatchArmView>, pattern: PatternView) -> bool {
    exists|i: int| 0 <= i < arms.len() && (#[trigger] arms[i]).pattern == pattern
}

/// Some arm matches values of the variant.
pub open spec fn has_variant(arms: Seq<MatchArmView>, name: Seq<char>) -> bool {
    exists|i: int|
        0 <= i < arms.len() && ((#[trigger] arms[i]).pattern matches PatternView::Variant {
            name: other,
            ..
        } && other == name)
}

/// Some arm matches all values.
pub open spec fn has_default(arms: Seq<MatchArmView>) -> bool {
    exists|i: int|
        0 <= i < arms.len() && ((#[trigger] arms[i]).pattern is Wildcard || arms[i].pattern is Var)
}

/// Each variant of the enum has an arm.
pub open spec fn enum_covered(env: Env, name: Seq<char>, arms: Seq<MatchArmView>) -> bool {
    match variant_names(env, name) {
        Some(names) => forall|i: int|
            0 <= i < names.len() ==> has_variant(arms, #[trigger] names[i]),
        None => false,
    }
}

/// The arms are for all values of the type.
pub open spec fn exhaustive(env: Env, scrutinee: TypeView, arms: Seq<MatchArmView>) -> bool {
    ||| has_default(arms)
    ||| match scrutinee {
        TypeView::Prim(PrimType::Bool) => has_pattern(arms, PatternView::Bool(true)) && has_pattern(
            arms,
            PatternView::Bool(false),
        ),
        TypeView::Prim(PrimType::Unit) => has_pattern(arms, PatternView::Unit),
        TypeView::Named(name) => enum_covered(env, name, arms),
        TypeView::Apply { name, .. } => enum_covered(env, name, arms),
        _ => false,
    }
}

/// The number of type arguments of a generic type.
pub open spec fn generic_arity(env: Env, name: Seq<char>) -> Option<nat> {
    if name == "Result"@ {
        Some(2)
    } else if env.structs.contains_key(name) {
        Some(env.structs[name].type_params.len())
    } else if env.enums.contains_key(name) {
        Some(env.enums[name].type_params.len())
    } else {
        None
    }
}

/// A name stands for a type without arguments.
pub open spec fn names_type(env: Env, name: Seq<char>, params: Seq<Seq<char>>) -> bool {
    ||| params.contains(name)
    ||| name == "PlatformError"@
    ||| env.structs.contains_key(name) && env.structs[name].type_params.len() == 0
    ||| env.enums.contains_key(name) && env.enums[name].type_params.len() == 0
}

/// The type is made of declared types, with the right number of arguments, and of the type
/// parameters in scope.
pub open spec fn type_validated(env: Env, ty: TypeView, params: Seq<Seq<char>>) -> Outcome<()>
    decreases ty, 0int,
{
    match ty {
        TypeView::Prim(_) => Ok(()),
        TypeView::Named(name) => if names_type(env, name, params) {
            Ok(())
        } else {
            Err(quoted("unknown type `"@, name, "`"@))
        },
        TypeView::GenericParam(name) => if params.contains(name) {
            Ok(())
        } else {
            Err(quoted("unknown type parameter `"@, name, "`"@))
        },
        TypeView::Apply { name, args } => match generic_arity(env, name) {
            None => Err(quoted("unknown generic type `"@, name, "`"@)),
            Some(wanted) => if args.len() != wanted {
                Err(
                    arity_text(
                        "generic type `"@,
                        name,
                        "` expects "@,
                        wanted,
                        " type argument(s), got "@,
                        args.len(),
                    ),
                )
            } else {
                types_validated(env, args, params, 0)
            },
        },
        TypeView::Function(function) => function_type_validated(env, function, params),
    }
}

pub open spec fn function_type_validated(
    env: Env,
    function: FunctionTypeView,
    params: Seq<Seq<char>>,
) -> Outcome<()>
    decreases function, 0int,
{
    match types_validated(env, function.params, params, 0) {
        Err(message) => Err(message),
        Ok(_) => type_validated(env, *function.ret, params),
    }
}

pub open spec fn types_validated(
    env: Env,
    list: Seq<TypeView>,
    params: Seq<Seq<char>>,
    i: int,
) -> Outcome<()>
    decreases list, list.len() - i,
{
    if i < 0 || i >= list.len() {
        Ok(())
    } else {
        match type_validated(env, list[i], params) {
            Err(message) => Err(message),
            Ok(_) => types_validated(env, list, params, i + 1),
        }
    }
}

pub open spec fn expr_checked(env: Env, types: Types, scope: Scope, e: ExprView) -> Checked<Info>
    decreases e, 0int,
{
    match e {
        ExprView::Int(_) => known(types, TypeView::Prim(PrimType::I32)),
        ExprView::Bool(_) => known(types, TypeView::Prim(PrimType::Bool)),
        ExprView::String(_) => known(types, TypeView::Prim(PrimType::String)),
        ExprView::Unit => known(types, TypeView::Prim(PrimType::Unit)),
        ExprView::Var(name) => var_checked(env, types, scope, name),
        ExprView::Call { name, args } => if env.variants.contains_key(name) {
            constructor_checked(env, types, scope, name, env.variants[name], args)
        } else if scope.contains_key(name) {
            value_call_checked(env, types, scope, name, scope[name], args)
        } else {
            call_checked(env, types, scope, name, args)
        },
        ExprView::MethodCall { receiver, name, args } => match expr_checked(
            env,
            types,
            scope,
            *receiver,
        ) {
            (types, Err(message)) => (types, Err(message)),
            (types, Ok(receiver)) => match method_selected(types, receiver, name, args.len()) {
                (types, Err(message)) => (types, Err(message)),
                (types, Ok(method)) => match expr_checked(env, types, scope, args[0]) {
                    (types, Err(message)) => (types, Err(message)),
                    (types, Ok(arg)) => method_applied(types, receiver, arg, method),
                },
            },
        },
        ExprView::FieldAccess { receiver, field } => match expr_checked(
            env,
            types,
            scope,
            *receiver,
        ) {
            (types, Err(message)) => (types, Err(message)),
            (types, Ok(receiver)) => field_checked(env, types, receiver, field),
        },
        ExprView::StructLiteral { name, field, value } => match literal_error(env, name, field) {
            Some(message) => (types, Err(message)),
            None => match expr_checked(env, types, scope, *value) {
                (types, Err(message)) => (types, Err(message)),
                (types, Ok(value)) => literal_checked(env, types, name, value),
            },
        },
        ExprView::Binary { op, left, right } => match expr_checked(env, types, scope, *left) {
            (types, Err(message)) => (types, Err(message)),
            (types, Ok(left)) => match method_selected(types, left, operator_name(op), 1) {
                (types, Err(message)) => (types, Err(message)),
                (types, Ok(method)) => match expr_checked(env, types, scope, *right) {
                    (types, Err(message)) => (types, Err(message)),
                    (types, Ok(right)) => method_applied(types, left, right, method),
                },
            },
        },
        ExprView::Match { scrutinee, arms } => if arms.len() == 0 {
            (types, Err("match expression must have at least one arm"@))
        } else {
            match expr_checked(env, types, scope, *scrutinee) {
                (types, Err(message)) => (types, Err(message)),
                (types, Ok(scrutinee)) => matched(env, types, scope, scrutinee, arms),
            }
        },
        ExprView::Block(block) => block_checked(env, types, scope, block),
    }
}

/// A method called on `receiver` with as many arguments as `given`, of which `first` is the first.
pub open spec fn method_checked(
    env: Env,
    types: Types,
    scope: Scope,
    receiver: ExprView,
    name: Seq<char>,
    first: ExprView,
    given: nat,
) -> Checked<Info> {
    match expr_checked(env, types, scope, receiver) {
        (types, Err(message)) => (types, Err(message)),
        (types, Ok(receiver)) => match method_selected(types, receiver, name, given) {
            (types, Err(message)) => (types, Err(message)),
            (types, Ok(method)) => match expr_checked(env, types, scope, first) {
                (types, Err(message)) => (types, Err(message)),
                (types, Ok(arg)) => method_applied(types, receiver, arg, method),
            },
        },
    }
}

/// A call by name: of a variant, of a function value in scope, or of a function.
pub open spec fn named_call_checked(
    env: Env,
    types: Types,
    scope: Scope,
    name: Seq<char>,
    args: Seq<ExprView>,
) -> Checked<Info> {
    if env.variants.contains_key(name) {
        constructor_checked(env, types, scope, name, env.variants[name], args)
    } else if scope.contains_key(name) {
        value_call_checked(env, types, scope, name, scope[name], args)
    } else {
        call_checked(env, types, scope, name, args)
    }
}

/// The field of the value of an expression.
pub open spec fn access_checked(
    env: Env,
    types: Types,
    scope: Scope,
    receiver: ExprView,
    field: Seq<char>,
) -> Checked<Info> {
    match expr_checked(env, types, scope, receiver) {
        (types, Err(message)) => (types, Err(message)),
        (types, Ok(receiver)) => field_checked(env, types, receiver, field),
    }
}

/// A struct with the value of an expression in its field.
pub open spec fn struct_checked(
    env: Env,
    types: Types,
    scope: Scope,
    name: Seq<char>,
    field: Seq<char>,
    value: ExprView,
) -> Checked<Info> {
    match literal_error(env, name, field) {
        Some(message) => (types, Err(message)),
        None => match expr_checked(env, types, scope, value) {
            (types, Err(message)) => (types, Err(message)),
            (types, Ok(value)) => literal_checked(env, types, name, value),
        },
    }
}

/// A match on the value of an expression.
pub open spec fn match_checked(
    env: Env,
    types: Types,
    scope: Scope,
    scrutinee: ExprView,
    arms: Seq<MatchArmView>,
) -> Checked<Info> {
    if arms.len() == 0 {
        (types, Err("match expression must have at least one arm"@))
    } else {
        match expr_checked(env, types, scope, scrutinee) {
            (types, Err(message)) => (types, Err(message)),
            (types, Ok(scrutinee)) => matched(env, types, scope, scrutinee, arms),
        }
    }
}

/// The arms are for values of the type of `scrutinee`, and for all of them.
pub open spec fn matched(
    env: Env,
    types: Types,
    scope: Scope,
    scrutinee: Info,
    arms: Seq<MatchArmView>,
) -> Checked<Info>
    decreases arms, arms.len() + 1,
{
    match resolved(types, scrutinee.ty, "match scrutinee type"@) {
        Err(message) => (types, Err(message)),
        Ok(expected) => match arms_checked(
            env,
            types,
            scope,
            arms,
            0,
            expected,
            None,
            scrutinee,
        ) {
            (types, Err(message)) => (types, Err(message)),
            (types, Ok(info)) => if exhaustive(env, expected, arms) {
                (types, Ok(info))
            } else {
                (types, Err("match expression is not exhaustive"@))
            },
        },
    }
}

/// A variant with a payload.
pub open spec fn constructor_checked(
    env: Env,
    types: Types,
    scope: Scope,
    name: Seq<char>,
    variant: Variant,
    args: Seq<ExprView>,
) -> Checked<Info>
    decreases args, args.len() + 1,
{
    match constructor_error(name, variant, args.len()) {
        Some(message) => (types, Err(message)),
        None => match expr_checked(env, types, scope, args[0]) {
            (types, Err(message)) => (types, Err(message)),
            (types, Ok(arg)) => constructed(types, variant, arg),
        },
    }
}

/// A call of a declared or imported function.
pub open spec fn call_checked(
    env: Env,
    types: Types,
    scope: Scope,
    name: Seq<char>,
    args: Seq<ExprView>,
) -> Checked<Info>
    decreases args, args.len() + 1,
{
    if !env.signatures.contains_key(name) {
        (types, Err(quoted("unknown function `"@, name, "`"@)))
    } else {
        let signature = env.signatures[name];
        if args.len() != signature.params.len() {
            (
                types,
                Err(call_arity_text("function `"@, name, signature.params.len(), args.len())),
            )
        } else {
            args_checked(env, types, scope, args, signature.params, 0, called(signature))
        }
    }
}

/// What a call has from the called function.
pub open spec fn called(signature: Signature) -> Info {
    Info {
        ty: signature.ret,
        effectful: signature.effectful,
        capabilities: match signature.declared {
            Some(declared) => declared,
            None => Seq::empty(),
        },
    }
}

/// The arguments from `i` on have the types of the slots `params`.
pub open spec fn args_checked(
    env: Env,
    types: Types,
    scope: Scope,
    args: Seq<ExprView>,
    params: Seq<int>,
    i: int,
    info: Info,
) -> Checked<Info>
    decreases args, args.len() - i,
{
    if i < 0 || i >= args.len() {
        (types, Ok(info))
    } else {
        match expr_checked(env, types, scope, args[i]) {
            (types, Err(message)) => (types, Err(message)),
            (types, Ok(arg)) => match unified(types, arg.ty, params[i]) {
                (types, Err(message)) => (types, Err(message)),
                (types, Ok(_)) => args_checked(
                    env,
                    types,
                    scope,
                    args,
                    params,
                    i + 1,
                    absorbed(info, arg),
                ),
            },
        }
    }
}

/// A call of a function value.
pub open spec fn value_call_checked(
    env: Env,
    types: Types,
    scope: Scope,
    name: Seq<char>,
    callee: int,
    args: Seq<ExprView>,
) -> Checked<Info>
    decreases args, args.len() + 1,
{
    match resolved(types, callee, "function value callee type"@) {
        Err(message) => (types, Err(message)),
        Ok(TypeView::Function(function)) => if args.len() != function.params.len() {
            (
                types,
                Err(
                    call_arity_text(
                        "function value `"@,
                        name,
                        function.params.len(),
                        args.len(),
                    ),
                ),
            )
        } else {
            match value_args_checked(
                env,
                types,
                scope,
                args,
                function.params,
                0,
                effects(function.effectful, Seq::empty()),
            ) {
                (types, Err(message)) => (types, Err(message)),
                (types, Ok(info)) => known_with(types, *function.ret, info),
            }
        },
        Ok(_) => (types, Err(quoted("`"@, name, "` is not callable"@))),
    }
}

/// The arguments from `i` on have the types `params`.
pub open spec fn value_args_checked(
    env: Env,
    types: Types,
    scope: Scope,
    args: Seq<ExprView>,
    params: Seq<TypeView>,
    i: int,
    info: Info,
) -> Checked<Info>
    decreases args, args.len() - i,
{
    if i < 0 || i >= args.len() {
        (types, Ok(info))
    } else {
        match expr_checked(env, types, scope, args[i]) {
            (types, Err(message)) => (types, Err(message)),
            (types, Ok(arg)) => match constrained(types, arg.ty, params[i]) {
                (types, Err(message)) => (types, Err(message)),
                (types, Ok(_)) => value_args_checked(
                    env,
                    types,
                    scope,
                    args,
                    params,
                    i + 1,
                    absorbed(info, arg),
                ),
            },
        }
    }
}

/// An arm for values of the type `expected`.
pub open spec fn arm_checked(
    env: Env,
    types: Types,
    scope: Scope,
    arm: MatchArmView,
    expected: TypeView,
) -> Checked<Info>
    decreases arm, 0int,
{
    match pattern_checked(env, types, scope, arm.pattern, expected) {
        (types, Err(message)) => (types, Err(message)),
        (types, Ok(inner)) => expr_checked(env, types, inner, arm.expr),
    }
}

/// The arms from `i` on have the same type as the slot `result`, or, without one, as the first of
/// them. `info` has the effects of what is before them.
pub open spec fn arms_checked(
    env: Env,
    types: Types,
    scope: Scope,
    arms: Seq<MatchArmView>,
    i: int,
    expected: TypeView,
    result: Option<int>,
    info: Info,
) -> Checked<Info>
    decreases arms, arms.len() - i,
{
    if i < 0 || i >= arms.len() {
        match result {
            Some(result) => (types, Ok(at_slot(info, result))),
            None => (types, Ok(info)),
        }
    } else {
        match arm_checked(env, types, scope, arms[i], expected) {
            (types, Err(message)) => (types, Err(message)),
            (types, Ok(arm)) => match result {
                None => arms_checked(
                    env,
                    types,
                    scope,
                    arms,
                    i + 1,
                    expected,
                    Some(arm.ty),
                    absorbed(info, arm),
                ),
                Some(existing) => match unified(types, existing, arm.ty) {
                    (types, Err(message)) => (types, Err(message)),
                    (types, Ok(_)) => arms_checked(
                        env,
                        types,
                        scope,
                        arms,
                        i + 1,
                        expected,
                        result,
                        absorbed(info, arm),
                    ),
                },
            },
        }
    }
}

pub open spec fn block_checked(
    env: Env,
    types: Types,
    scope: Scope,
    block: BlockView,
) -> Checked<Info>
    decreases block, 0int,
{
    items_checked(env, types, scope, block.items, 0, None, effects(false, Seq::empty()))
}

/// The items from `i` on, where `last` is the slot of the expression just before them, and `info`
/// has the effects of what is before them.
pub open spec fn items_checked(
    env: Env,
    types: Types,
    scope: Scope,
    items: Seq<BlockItemView>,
    i: int,
    last: Option<int>,
    info: Info,
) -> Checked<Info>
    decreases items, items.len() - i,
{
    if i < 0 || i >= items.len() {
        match last {
            Some(last) => (types, Ok(at_slot(info, last))),
            None => known_with(types, TypeView::Prim(PrimType::Unit), info),
        }
    } else {
        match item_checked(env, types, scope, items[i]) {
            (types, Err(message)) => (types, Err(message)),
            (types, Ok(item)) => match items[i] {
                BlockItemView::Binding { name, .. } => items_checked(
                    env,
                    types,
                    scope.insert(name, item.ty),
                    items,
                    i + 1,
                    None,
                    absorbed(info, item),
                ),
                BlockItemView::Expr(_) => items_checked(
                    env,
                    types,
                    scope,
                    items,
                    i + 1,
                    Some(item.ty),
                    absorbed(info, item),
                ),
            },
        }
    }
}

pub open spec fn item_checked(
    env: Env,
    types: Types,
    scope: Scope,
    item: BlockItemView,
) -> Checked<Info>
    decreases item, 0int,
{
    match item {
        BlockItemView::Binding { name, ty, expr } => if scope.contains_key(name) {
            (types, Err(quoted("duplicate binding `"@, name, "` in the same block"@)))
        } else {
            match expr_checked(env, types, scope, expr) {
                (types, Err(message)) => (types, Err(message)),
                (types, Ok(info)) => match annotated(env, types, name, ty, info.ty) {
                    (types, Err(message)) => (types, Err(message)),
                    (types, Ok(_)) => (types, Ok(info)),
                },
            }
        },
        BlockItemView::Expr(expr) => expr_checked(env, types, scope, expr),
    }
}

/// The slot has the type that the binding is annotated with.
pub open spec fn annotated(
    env: Env,
    types: Types,
    name: Seq<char>,
    annotation: Option<TypeView>,
    id: int,
) -> Checked<()> {
    match annotation {
        None => (types, Err(quoted("binding `"@, name, "` must have a type annotation"@))),
        Some(ty) => match type_validated(env, ty, Seq::empty()) {
            Err(message) => (types, Err(message)),
            Ok(_) => constrained(types, id, ty),
        },
    }
}

} // verus!
