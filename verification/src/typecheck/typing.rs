//! The type system of the full language, as far as no type parameter is left open.
use vstd::prelude::*;

use crate::ast::{
    BinaryOp, BlockItemView, BlockView, ExprView, FunctionTypeView, MatchArmView, PatternView,
    PrimType, TypeView,
};
use crate::typecheck::model::{Env, Variant};
use crate::typecheck::substitution::{inferred, is_generic, pairing, substituted, Substitution};

verus! {

/// What the type system says of an expression.
pub enum Typing {
    /// It has the type.
    Has(TypeView),
    /// A type parameter is left open in it, so that its type is not told.
    Open,
    /// It has no type.
    Wrong,
}

/// The types of the functions that can be called by name.
pub type Arrows = Map<Seq<char>, FunctionTypeView>;

/// The types of the names in scope.
pub type Locals = Map<Seq<char>, TypeView>;

/// An expression of the type, unless parameters are open in it.
pub open spec fn told(ty: TypeView) -> Typing {
    if is_generic(ty) {
        Typing::Open
    } else {
        Typing::Has(ty)
    }
}

/// A value of the type `actual` where one of the type `wanted` must stand gives one of the type
/// `result`.
pub open spec fn wanted(actual: TypeView, wanted: TypeView, result: TypeView) -> Typing {
    if actual == wanted {
        Typing::Has(result)
    } else {
        Typing::Wrong
    }
}

pub open spec fn var_typing(env: Env, arrows: Arrows, locals: Locals, name: Seq<char>) -> Typing {
    if locals.contains_key(name) {
        Typing::Has(locals[name])
    } else if env.variants.contains_key(name) {
        if env.variants[name].payload is Some {
            Typing::Wrong
        } else {
            Typing::Has(TypeView::Named(env.variants[name].enum_name))
        }
    } else if arrows.contains_key(name) {
        told(TypeView::Function(arrows[name]))
    } else {
        Typing::Wrong
    }
}

/// A variant with a payload of the type `actual`.
pub open spec fn constructor_typing(variant: Variant, actual: TypeView) -> Typing {
    let payload = variant.payload->Some_0;
    let found = inferred(payload, actual, Map::empty());
    let expected = substituted(payload, found);
    if is_generic(expected) {
        Typing::Open
    } else if expected != actual {
        Typing::Wrong
    } else {
        let params = variant.enum_type_params;
        if params.len() == 0 {
            Typing::Has(TypeView::Named(variant.enum_name))
        } else {
            told(TypeView::Apply { name: variant.enum_name, args: arguments(params, found) })
        }
    }
}

/// The types found for the parameters; one for which none is found is left open.
pub open spec fn arguments(params: Seq<Seq<char>>, found: Substitution) -> Seq<TypeView> {
    Seq::new(
        params.len(),
        |i: int|
            if found.contains_key(params[i]) {
                found[params[i]]
            } else {
                TypeView::GenericParam(params[i])
            },
    )
}

pub open spec fn field_typing(env: Env, receiver: TypeView, field: Seq<char>) -> Typing {
    match receiver {
        TypeView::Named(name) => if env.structs.contains_key(name) && env.structs[name].field.name
            == field {
            told(env.structs[name].field.ty)
        } else {
            Typing::Wrong
        },
        _ => Typing::Wrong,
    }
}

/// A struct with a value of the type `value` in its field.
pub open spec fn literal_typing(env: Env, name: Seq<char>, value: TypeView) -> Typing {
    let field = env.structs[name].field.ty;
    if is_generic(field) {
        Typing::Open
    } else {
        wanted(value, field, TypeView::Named(name))
    }
}

/// The type that both operands of a method have, and the type of its result.
pub open spec fn method_typing(receiver: TypeView, name: Seq<char>, given: nat) -> Option<
    (TypeView, TypeView),
> {
    let number = TypeView::Prim(PrimType::I32);
    let truth = TypeView::Prim(PrimType::Bool);
    if given != 1 {
        None
    } else if receiver == number && (name == "add"@ || name == "sub"@ || name == "mul"@) {
        Some((number, number))
    } else if receiver == number && name == "lt"@ {
        Some((number, truth))
    } else if (receiver == number || receiver == truth) && name == "eq"@ {
        Some((receiver, truth))
    } else {
        None
    }
}

/// The type that both operands of an operator have, and the type of its result: arithmetic is on
/// numbers and gives one, numbers are ordered, and numbers and truth values are equal or not.
pub open spec fn operator_typing(left: TypeView, op: BinaryOp) -> Option<(TypeView, TypeView)> {
    let number = TypeView::Prim(PrimType::I32);
    let truth = TypeView::Prim(PrimType::Bool);
    match op {
        BinaryOp::Add | BinaryOp::Sub | BinaryOp::Mul => if left == number {
            Some((number, number))
        } else {
            None
        },
        BinaryOp::Lt => if left == number {
            Some((number, truth))
        } else {
            None
        },
        BinaryOp::Eq => if left == number || left == truth {
            Some((left, truth))
        } else {
            None
        },
    }
}

/// The variant is one of the enum.
pub open spec fn is_variant_of(env: Env, name: Seq<char>, variant: Seq<char>) -> bool {
    if name == "Result"@ {
        variant == "Ok"@ || variant == "Err"@
    } else if name == "PlatformError"@ {
        ||| variant == "Unsupported"@
        ||| variant == "Unavailable"@
        ||| variant == "Interrupted"@
        ||| variant == "InvalidUtf8"@
        ||| variant == "Unknown"@
    } else {
        env.enums.contains_key(name) && exists|k: int|
            0 <= k < env.enums[name].variants.len() && (#[trigger] env.enums[name].variants[k]).name
                == variant
    }
}

/// The name is that of an enum.
pub open spec fn is_enum(env: Env, name: Seq<char>) -> bool {
    name == "Result"@ || name == "PlatformError"@ || env.enums.contains_key(name)
}

/// Some arm has the pattern.
pub open spec fn arm_of(arms: Seq<MatchArmView>, pattern: PatternView) -> bool {
    exists|i: int| 0 <= i < arms.len() && (#[trigger] arms[i]).pattern == pattern
}

/// Some arm is for the variant.
pub open spec fn arm_for(arms: Seq<MatchArmView>, variant: Seq<char>) -> bool {
    exists|i: int|
        0 <= i < arms.len() && ((#[trigger] arms[i]).pattern matches PatternView::Variant {
            name,
            ..
        } && name == variant)
}

/// The arms leave no value of the type out: one matches any value, or there is one for each truth
/// value, for the one value of `Unit`, or for each variant of the enum.
pub open spec fn covering(env: Env, ty: TypeView, arms: Seq<MatchArmView>) -> bool {
    ||| exists|i: int|
        0 <= i < arms.len() && ((#[trigger] arms[i]).pattern is Wildcard || arms[i].pattern is Var)
    ||| ty == TypeView::Prim(PrimType::Bool) && forall|truth: bool| #[trigger]
        arm_of(arms, PatternView::Bool(truth))
    ||| ty == TypeView::Prim(PrimType::Unit) && arm_of(arms, PatternView::Unit)
    ||| (ty is Named || ty is Apply) && {
        let name = if ty is Named {
            ty->Named_0
        } else {
            ty->Apply_name
        };
        &&& is_enum(env, name)
        &&& forall|variant: Seq<char>|
            is_variant_of(env, name, variant) ==> #[trigger] arm_for(arms, variant)
    }
}

/// A type of the number of type arguments is declared under the name, or built in.
pub open spec fn takes_arguments(env: Env, name: Seq<char>, count: nat) -> bool {
    if name == "Result"@ {
        count == 2
    } else if env.structs.contains_key(name) {
        count == env.structs[name].type_params.len()
    } else {
        env.enums.contains_key(name) && count == env.enums[name].type_params.len()
    }
}

/// The type is made of primitive types, of type parameters in scope, and of built-in and declared
/// types with all their arguments.
pub open spec fn valid(env: Env, ty: TypeView, params: Seq<Seq<char>>) -> bool
    decreases ty,
{
    match ty {
        TypeView::Prim(_) => true,
        TypeView::GenericParam(name) => params.contains(name),
        TypeView::Named(name) => {
            ||| params.contains(name)
            ||| name == "PlatformError"@
            ||| env.structs.contains_key(name) && env.structs[name].type_params.len() == 0
            ||| env.enums.contains_key(name) && env.enums[name].type_params.len() == 0
        },
        TypeView::Apply { name, args } => {
            &&& takes_arguments(env, name, args.len())
            &&& forall|i: int| 0 <= i < args.len() ==> valid(env, #[trigger] args[i], params)
        },
        TypeView::Function(function) => {
            &&& forall|i: int|
                0 <= i < function.params.len() ==> valid(
                    env,
                    #[trigger] function.params[i],
                    params,
                )
            &&& valid(env, *function.ret, params)
        },
    }
}

/// What the type system says of a pattern.
pub enum Binding {
    /// With the names that it binds, these are in scope.
    Binds(Locals),
    /// A type parameter is left open in it.
    Open,
    /// It matches no value of the type.
    Wrong,
}

/// The variant is one of the enum `expected`, and has a payload or has none.
pub open spec fn variant_fits(
    env: Env,
    name: Seq<char>,
    has_payload: bool,
    expected: TypeView,
) -> bool {
    &&& env.variants.contains_key(name)
    &&& has_payload <==> env.variants[name].payload is Some
    &&& if env.variants[name].enum_type_params.len() == 0 {
        expected == TypeView::Named(env.variants[name].enum_name)
    } else {
        expected matches TypeView::Apply { name: applied, args } && applied
            == env.variants[name].enum_name && args.len() > 0
    }
}

/// The type of the payload of a variant of the enum `expected`: that of its declaration, with the
/// type arguments of `expected` for the type parameters.
pub open spec fn payload_type(variant: Variant, expected: TypeView) -> TypeView {
    match expected {
        TypeView::Apply { args, .. } => substituted(
            variant.payload->Some_0,
            pairing(variant.enum_type_params, args),
        ),
        _ => variant.payload->Some_0,
    }
}

/// A pattern for values of the type `expected`.
pub open spec fn pattern_typing(
    env: Env,
    locals: Locals,
    pattern: PatternView,
    expected: TypeView,
) -> Binding
    decreases pattern,
{
    match pattern {
        PatternView::Int(_) => literal_binding(locals, expected, PrimType::I32),
        PatternView::Bool(_) => literal_binding(locals, expected, PrimType::Bool),
        PatternView::Unit => literal_binding(locals, expected, PrimType::Unit),
        PatternView::Wildcard => Binding::Binds(locals),
        PatternView::Var(name) => if locals.contains_key(name) {
            Binding::Wrong
        } else {
            Binding::Binds(locals.insert(name, expected))
        },
        PatternView::Variant { name, payload } => if !variant_fits(env, name, payload is Some, expected) {
            Binding::Wrong
        } else {
            match payload {
                None => Binding::Binds(locals),
                Some(pattern) => {
                    let inner = payload_type(env.variants[name], expected);
                    if is_generic(inner) {
                        Binding::Open
                    } else {
                        pattern_typing(env, locals, *pattern, inner)
                    }
                },
            }
        },
    }
}

pub open spec fn literal_binding(locals: Locals, expected: TypeView, prim: PrimType) -> Binding {
    if expected == TypeView::Prim(prim) {
        Binding::Binds(locals)
    } else {
        Binding::Wrong
    }
}

pub open spec fn expr_typing(env: Env, arrows: Arrows, locals: Locals, e: ExprView) -> Typing
    decreases e, 0int,
{
    match e {
        ExprView::Int(_) => Typing::Has(TypeView::Prim(PrimType::I32)),
        ExprView::Bool(_) => Typing::Has(TypeView::Prim(PrimType::Bool)),
        ExprView::String(_) => Typing::Has(TypeView::Prim(PrimType::String)),
        ExprView::Unit => Typing::Has(TypeView::Prim(PrimType::Unit)),
        ExprView::Var(name) => var_typing(env, arrows, locals, name),
        ExprView::Call { name, args } => named_call_typing(env, arrows, locals, name, args),
        ExprView::MethodCall { receiver, name, args } => match expr_typing(
            env,
            arrows,
            locals,
            *receiver,
        ) {
            Typing::Has(receiver) => match method_typing(receiver, name, args.len()) {
                None => Typing::Wrong,
                Some((operand, ret)) => match expr_typing(env, arrows, locals, args[0]) {
                    Typing::Has(arg) => wanted(arg, operand, ret),
                    other => other,
                },
            },
            other => other,
        },
        ExprView::FieldAccess { receiver, field } => match expr_typing(
            env,
            arrows,
            locals,
            *receiver,
        ) {
            Typing::Has(receiver) => field_typing(env, receiver, field),
            other => other,
        },
        ExprView::StructLiteral { name, field, value } => if !env.structs.contains_key(name)
            || env.structs[name].field.name != field {
            Typing::Wrong
        } else {
            match expr_typing(env, arrows, locals, *value) {
                Typing::Has(value) => literal_typing(env, name, value),
                other => other,
            }
        },
        ExprView::Binary { op, left, right } => match expr_typing(env, arrows, locals, *left) {
            Typing::Has(left) => match operator_typing(left, op) {
                None => Typing::Wrong,
                Some((operand, ret)) => match expr_typing(env, arrows, locals, *right) {
                    Typing::Has(right) => wanted(right, operand, ret),
                    other => other,
                },
            },
            other => other,
        },
        ExprView::Match { scrutinee, arms } => if arms.len() == 0 {
            Typing::Wrong
        } else {
            match expr_typing(env, arrows, locals, *scrutinee) {
                Typing::Has(expected) => match arms_typing(
                    env,
                    arrows,
                    locals,
                    arms,
                    0,
                    expected,
                    None,
                ) {
                    Typing::Has(result) => if covering(env, expected, arms) {
                        Typing::Has(result)
                    } else {
                        Typing::Wrong
                    },
                    other => other,
                },
                other => other,
            }
        },
        ExprView::Block(block) => block_typing(env, arrows, locals, block),
    }
}

/// A call by name: of a variant, of a function value in scope, or of a function.
pub open spec fn named_call_typing(
    env: Env,
    arrows: Arrows,
    locals: Locals,
    name: Seq<char>,
    args: Seq<ExprView>,
) -> Typing
    decreases args, args.len() + 2,
{
    if env.variants.contains_key(name) {
        if env.variants[name].payload is None || args.len() != 1 {
            Typing::Wrong
        } else {
            match expr_typing(env, arrows, locals, args[0]) {
                Typing::Has(actual) => constructor_typing(env.variants[name], actual),
                other => other,
            }
        }
    } else if locals.contains_key(name) {
        match locals[name] {
            TypeView::Function(function) => call_typing(env, arrows, locals, args, function),
            _ => Typing::Wrong,
        }
    } else if !arrows.contains_key(name) {
        Typing::Wrong
    } else if is_generic(TypeView::Function(arrows[name])) {
        Typing::Open
    } else {
        call_typing(env, arrows, locals, args, arrows[name])
    }
}

/// A call of a function of the type.
pub open spec fn call_typing(
    env: Env,
    arrows: Arrows,
    locals: Locals,
    args: Seq<ExprView>,
    function: FunctionTypeView,
) -> Typing
    decreases args, args.len() + 1,
{
    if args.len() != function.params.len() {
        Typing::Wrong
    } else {
        args_typing(env, arrows, locals, args, function, 0)
    }
}

/// The arguments from `i` on have the types of the parameters.
pub open spec fn args_typing(
    env: Env,
    arrows: Arrows,
    locals: Locals,
    args: Seq<ExprView>,
    function: FunctionTypeView,
    i: int,
) -> Typing
    decreases args, args.len() - i,
{
    if i < 0 || i >= args.len() {
        Typing::Has(*function.ret)
    } else {
        match expr_typing(env, arrows, locals, args[i]) {
            Typing::Has(arg) => if arg == function.params[i] {
                args_typing(env, arrows, locals, args, function, i + 1)
            } else {
                Typing::Wrong
            },
            other => other,
        }
    }
}

/// An arm for values of the type `expected`.
pub open spec fn arm_typing(
    env: Env,
    arrows: Arrows,
    locals: Locals,
    arm: MatchArmView,
    expected: TypeView,
) -> Typing
    decreases arm, 0int,
{
    match pattern_typing(env, locals, arm.pattern, expected) {
        Binding::Binds(inner) => expr_typing(env, arrows, inner, arm.expr),
        Binding::Open => Typing::Open,
        Binding::Wrong => Typing::Wrong,
    }
}

/// The arms from `i` on have the type `result`, or, without one, that of the first of them.
pub open spec fn arms_typing(
    env: Env,
    arrows: Arrows,
    locals: Locals,
    arms: Seq<MatchArmView>,
    i: int,
    expected: TypeView,
    result: Option<TypeView>,
) -> Typing
    decreases arms, arms.len() - i,
{
    if i < 0 || i >= arms.len() {
        match result {
            Some(result) => Typing::Has(result),
            None => Typing::Wrong,
        }
    } else {
        match arm_typing(env, arrows, locals, arms[i], expected) {
            Typing::Has(arm) => if result is None || result == Some(arm) {
                arms_typing(env, arrows, locals, arms, i + 1, expected, Some(arm))
            } else {
                Typing::Wrong
            },
            other => other,
        }
    }
}

/// A block has the type of its last item, where that is an expression.
pub open spec fn block_typing(env: Env, arrows: Arrows, locals: Locals, block: BlockView) -> Typing
    decreases block, 0int,
{
    items_typing(env, arrows, locals, block.items, 0, TypeView::Prim(PrimType::Unit))
}

/// A block whose items from `i` on are left, and whose type is `last` without them.
pub open spec fn items_typing(
    env: Env,
    arrows: Arrows,
    locals: Locals,
    items: Seq<BlockItemView>,
    i: int,
    last: TypeView,
) -> Typing
    decreases items, items.len() - i,
{
    if i < 0 || i >= items.len() {
        Typing::Has(last)
    } else {
        match item_typing(env, arrows, locals, items[i]) {
            Typing::Has(ty) => match items[i] {
                BlockItemView::Binding { name, .. } => items_typing(
                    env,
                    arrows,
                    locals.insert(name, ty),
                    items,
                    i + 1,
                    TypeView::Prim(PrimType::Unit),
                ),
                BlockItemView::Expr(_) => items_typing(env, arrows, locals, items, i + 1, ty),
            },
            other => other,
        }
    }
}

/// A binding is of a new name, and has the type of its annotation, which is a valid one.
pub open spec fn item_typing(
    env: Env,
    arrows: Arrows,
    locals: Locals,
    item: BlockItemView,
) -> Typing
    decreases item, 0int,
{
    match item {
        BlockItemView::Binding { name, ty, expr } => if locals.contains_key(name) {
            Typing::Wrong
        } else {
            match expr_typing(env, arrows, locals, expr) {
                Typing::Has(actual) => match ty {
                    Some(annotation) => if valid(env, annotation, Seq::empty()) {
                        wanted(actual, annotation, annotation)
                    } else {
                        Typing::Wrong
                    },
                    None => Typing::Wrong,
                },
                other => other,
            }
        },
        BlockItemView::Expr(expr) => expr_typing(env, arrows, locals, expr),
    }
}

} // verus!
