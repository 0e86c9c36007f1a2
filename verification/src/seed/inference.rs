//! Type inference for the seed language: which slots the checker makes, which it finds to have
//! the same type, and which diagnostic it stops with.
use vstd::prelude::*;

use crate::error::Outcome;
use crate::seed::ast::{
    BinaryOp, BlockItemView, BlockView, ExprView, FunctionView, MatchArmView, Pattern, PrimType,
    ProgramView,
};
use crate::seed::typed::{TypedFunctionView, TypedProgramView};
use crate::slots::Store;
use crate::text::{decimal, quoted};

verus! {

/// What is known of the types of the slots.
pub type Types = Store<PrimType>;

/// The slots of the parameters and of the result of a function.
pub struct Signature {
    pub params: Seq<int>,
    pub ret: int,
}

pub type Signatures = Map<Seq<char>, Signature>;

/// The slots of the names in scope.
pub type Scope = Map<Seq<char>, int>;

/// Each slot of a signature is a slot of the store.
pub open spec fn signature_within(signature: Signature, types: Types) -> bool {
    &&& types.has(signature.ret)
    &&& forall|i: int| 0 <= i < signature.params.len() ==> types.has(#[trigger] signature.params[i])
}

/// Each slot of the signatures is a slot of the store.
pub open spec fn signatures_within(signatures: Signatures, types: Types) -> bool {
    forall|name: Seq<char>| #[trigger]
        signatures.contains_key(name) ==> signature_within(signatures[name], types)
}

/// What is known after a step, and what the step returns.
pub type Checked<T> = (Types, Outcome<T>);

/// The name of a type in a diagnostic.
pub open spec fn prim_text(prim: PrimType) -> Seq<char> {
    match prim {
        PrimType::I32 => "I32"@,
        PrimType::Bool => "Bool"@,
        PrimType::Unit => "Unit"@,
    }
}

pub open spec fn mismatch_text(left: PrimType, right: PrimType) -> Seq<char> {
    "type mismatch: expected "@ + prim_text(left) + ", got "@ + prim_text(right)
}

pub open spec fn arity_text(name: Seq<char>, wanted: nat, given: nat) -> Seq<char> {
    "function `"@ + name + "` expects "@ + decimal(wanted) + " argument(s), got "@ + decimal(given)
}

/// A new slot of a known type.
pub open spec fn known(types: Types, prim: PrimType) -> Checked<int> {
    (types.with(Some(prim)), Ok(types.len()))
}

/// The slots `a` and `b` have the same type.
pub open spec fn unified(types: Types, a: int, b: int) -> Checked<()> {
    let ra = types.roots[a];
    let rb = types.roots[b];
    if ra == rb {
        (types, Ok(()))
    } else {
        match (types.values[ra], types.values[rb]) {
            (Some(left), Some(right)) => if left != right {
                (types, Err(mismatch_text(left, right)))
            } else {
                (types.linked(rb, ra), Ok(()))
            },
            (None, Some(_)) => (types.linked(ra, rb), Ok(())),
            _ => (types.linked(rb, ra), Ok(())),
        }
    }
}

/// The slot `id` has the type `prim`.
pub open spec fn constrained(types: Types, id: int, prim: PrimType) -> Checked<()> {
    unified(types.with(Some(prim)), id, types.len())
}

/// The type of the slot `id`, which is owed to `label`.
pub open spec fn resolved(types: Types, id: int, label: Seq<char>) -> Outcome<PrimType> {
    match types.value_of(id) {
        Some(prim) => Ok(prim),
        None => Err("could not infer "@ + label),
    }
}

/// The type of the values that a pattern matches, unless it matches all.
pub open spec fn pattern_prim(pattern: Pattern) -> Option<PrimType> {
    match pattern {
        Pattern::Int(_) => Some(PrimType::I32),
        Pattern::Bool(_) => Some(PrimType::Bool),
        Pattern::Unit => Some(PrimType::Unit),
        Pattern::Wildcard => None,
    }
}

pub open spec fn has_pattern(arms: Seq<MatchArmView>, pattern: Pattern) -> bool {
    exists|i: int| 0 <= i < arms.len() && (#[trigger] arms[i]).pattern == pattern
}

/// Some arm matches each value of the type.
pub open spec fn exhaustive(scrutinee: PrimType, arms: Seq<MatchArmView>) -> bool {
    ||| has_pattern(arms, Pattern::Wildcard)
    ||| match scrutinee {
        PrimType::Bool => has_pattern(arms, Pattern::Bool(true)) && has_pattern(
            arms,
            Pattern::Bool(false),
        ),
        PrimType::Unit => has_pattern(arms, Pattern::Unit),
        PrimType::I32 => false,
    }
}

/// The type of an operation on values of the types of two slots.
pub open spec fn operation(types: Types, op: BinaryOp, left: int, right: int) -> Checked<int> {
    match op {
        BinaryOp::Eq => match unified(types, left, right) {
            (types, Err(message)) => (types, Err(message)),
            (types, Ok(_)) => known(types, PrimType::Bool),
        },
        _ => match constrained(types, left, PrimType::I32) {
            (types, Err(message)) => (types, Err(message)),
            (types, Ok(_)) => match constrained(types, right, PrimType::I32) {
                (types, Err(message)) => (types, Err(message)),
                (types, Ok(_)) => known(
                    types,
                    if op == BinaryOp::Lt {
                        PrimType::Bool
                    } else {
                        PrimType::I32
                    },
                ),
            },
        },
    }
}

/// The patterns of the arms from `i` on match values of the type of the slot `scrutinee`.
pub open spec fn patterns_checked(
    types: Types,
    scrutinee: int,
    arms: Seq<MatchArmView>,
    i: int,
) -> Checked<()>
    decreases arms.len() - i,
{
    if i >= arms.len() {
        (types, Ok(()))
    } else {
        match pattern_prim(arms[i].pattern) {
            None => patterns_checked(types, scrutinee, arms, i + 1),
            Some(prim) => match constrained(types, scrutinee, prim) {
                (types, Err(message)) => (types, Err(message)),
                (types, Ok(_)) => patterns_checked(types, scrutinee, arms, i + 1),
            },
        }
    }
}

pub open spec fn expr_checked(
    signatures: Signatures,
    types: Types,
    scope: Scope,
    e: ExprView,
) -> Checked<int>
    decreases e, 0int,
{
    match e {
        ExprView::Int(_) => known(types, PrimType::I32),
        ExprView::Bool(_) => known(types, PrimType::Bool),
        ExprView::Unit => known(types, PrimType::Unit),
        ExprView::Var(name) => if scope.contains_key(name) {
            (types, Ok(scope[name]))
        } else {
            (types, Err(quoted("unknown local binding `"@, name, "`"@)))
        },
        ExprView::Call { name, args } => if !signatures.contains_key(name) {
            (types, Err(quoted("unknown function `"@, name, "`"@)))
        } else if args.len() != signatures[name].params.len() {
            (types, Err(arity_text(name, signatures[name].params.len(), args.len())))
        } else {
            match args_checked(signatures, types, scope, args, signatures[name].params, 0) {
                (types, Err(message)) => (types, Err(message)),
                (types, Ok(_)) => (types, Ok(signatures[name].ret)),
            }
        },
        ExprView::MethodCall { .. } => (
            types,
            Err("method calls are parsed but trait method resolution is not implemented yet"@),
        ),
        ExprView::Binary { op, left, right } => match expr_checked(
            signatures,
            types,
            scope,
            *left,
        ) {
            (types, Err(message)) => (types, Err(message)),
            (types, Ok(left)) => match expr_checked(signatures, types, scope, *right) {
                (types, Err(message)) => (types, Err(message)),
                (types, Ok(right)) => operation(types, op, left, right),
            },
        },
        ExprView::Match { scrutinee, arms } => if arms.len() == 0 {
            (types, Err("match expression must have at least one arm"@))
        } else {
            match expr_checked(signatures, types, scope, *scrutinee) {
                (types, Err(message)) => (types, Err(message)),
                (types, Ok(scrutinee)) => match patterns_checked(types, scrutinee, arms, 0) {
                    (types, Err(message)) => (types, Err(message)),
                    (types, Ok(_)) => match arms_checked(signatures, types, scope, arms, 0, None) {
                        (types, Err(message)) => (types, Err(message)),
                        (types, Ok(result)) => match resolved(
                            types,
                            scrutinee,
                            "match scrutinee type"@,
                        ) {
                            Err(message) => (types, Err(message)),
                            Ok(prim) => if exhaustive(prim, arms) {
                                (types, Ok(result))
                            } else {
                                (types, Err("match expression is not exhaustive"@))
                            },
                        },
                    },
                },
            }
        },
        ExprView::Block(block) => block_checked(signatures, types, scope, block),
    }
}

/// A call of a function.
pub open spec fn call_checked(
    signatures: Signatures,
    types: Types,
    scope: Scope,
    name: Seq<char>,
    args: Seq<ExprView>,
) -> Checked<int> {
    if !signatures.contains_key(name) {
        (types, Err(quoted("unknown function `"@, name, "`"@)))
    } else if args.len() != signatures[name].params.len() {
        (types, Err(arity_text(name, signatures[name].params.len(), args.len())))
    } else {
        match args_checked(signatures, types, scope, args, signatures[name].params, 0) {
            (types, Err(message)) => (types, Err(message)),
            (types, Ok(_)) => (types, Ok(signatures[name].ret)),
        }
    }
}

/// The arguments from `i` on have the types of the slots `params`.
pub open spec fn args_checked(
    signatures: Signatures,
    types: Types,
    scope: Scope,
    args: Seq<ExprView>,
    params: Seq<int>,
    i: int,
) -> Checked<()>
    decreases args, args.len() - i,
{
    if i < 0 || i >= args.len() {
        (types, Ok(()))
    } else {
        match expr_checked(signatures, types, scope, args[i]) {
            (types, Err(message)) => (types, Err(message)),
            (types, Ok(arg)) => match unified(types, arg, params[i]) {
                (types, Err(message)) => (types, Err(message)),
                (types, Ok(_)) => args_checked(signatures, types, scope, args, params, i + 1),
            },
        }
    }
}

pub open spec fn arm_checked(
    signatures: Signatures,
    types: Types,
    scope: Scope,
    arm: MatchArmView,
) -> Checked<int>
    decreases arm, 0int,
{
    expr_checked(signatures, types, scope, arm.expr)
}

/// The arms from `i` on have the same type as the slot `result`, or, without one, as the first
/// of them.
pub open spec fn arms_checked(
    signatures: Signatures,
    types: Types,
    scope: Scope,
    arms: Seq<MatchArmView>,
    i: int,
    result: Option<int>,
) -> Checked<int>
    decreases arms, arms.len() - i,
{
    if i < 0 || i >= arms.len() {
        match result {
            Some(result) => (types, Ok(result)),
            None => (types, Ok(0)),
        }
    } else {
        match arm_checked(signatures, types, scope, arms[i]) {
            (types, Err(message)) => (types, Err(message)),
            (types, Ok(arm)) => match result {
                None => arms_checked(signatures, types, scope, arms, i + 1, Some(arm)),
                Some(existing) => match unified(types, existing, arm) {
                    (types, Err(message)) => (types, Err(message)),
                    (types, Ok(_)) => arms_checked(signatures, types, scope, arms, i + 1, result),
                },
            },
        }
    }
}

pub open spec fn block_checked(
    signatures: Signatures,
    types: Types,
    scope: Scope,
    block: BlockView,
) -> Checked<int>
    decreases block, 0int,
{
    items_checked(signatures, types, scope, block.items, 0, None)
}

/// The items from `i` on, where `last` is the slot of the expression just before them.
pub open spec fn items_checked(
    signatures: Signatures,
    types: Types,
    scope: Scope,
    items: Seq<BlockItemView>,
    i: int,
    last: Option<int>,
) -> Checked<int>
    decreases items, items.len() - i,
{
    if i < 0 || i >= items.len() {
        match last {
            Some(last) => (types, Ok(last)),
            None => known(types, PrimType::Unit),
        }
    } else {
        match item_checked(signatures, types, scope, items[i]) {
            (types, Err(message)) => (types, Err(message)),
            (types, Ok(item)) => match items[i] {
                BlockItemView::Binding { name, .. } => items_checked(
                    signatures,
                    types,
                    scope.insert(name, item),
                    items,
                    i + 1,
                    None,
                ),
                BlockItemView::Expr(_) => items_checked(
                    signatures,
                    types,
                    scope,
                    items,
                    i + 1,
                    Some(item),
                ),
            },
        }
    }
}

pub open spec fn item_checked(
    signatures: Signatures,
    types: Types,
    scope: Scope,
    item: BlockItemView,
) -> Checked<int>
    decreases item, 0int,
{
    match item {
        BlockItemView::Binding { name, expr } => if scope.contains_key(name) {
            (types, Err(quoted("duplicate binding `"@, name, "` in the same block"@)))
        } else {
            expr_checked(signatures, types, scope, expr)
        },
        BlockItemView::Expr(expr) => expr_checked(signatures, types, scope, expr),
    }
}

/// `count` slots of unknown types.
pub open spec fn with_fresh(types: Types, count: nat) -> Types
    decreases count,
{
    if count == 0 {
        types
    } else {
        with_fresh(types, (count - 1) as nat).with(None)
    }
}

/// The slots made for the signature of a function.
pub open spec fn declared(types: Types, function: FunctionView) -> (Types, Signature) {
    let count = function.params.len();
    (
        with_fresh(types, count).with(function.return_annotation),
        Signature {
            params: Seq::new(count, |i: int| types.len() + i),
            ret: types.len() + count,
        },
    )
}

/// What is known of slots and functions.
pub struct Known {
    pub types: Types,
    pub signatures: Signatures,
}

/// The functions from `i` on are declared.
pub open spec fn registered(known: Known, functions: Seq<FunctionView>, i: int) -> (
    Known,
    Outcome<()>,
)
    decreases functions.len() - i,
{
    if i >= functions.len() {
        (known, Ok(()))
    } else if known.signatures.contains_key(functions[i].name) {
        (known, Err(quoted("duplicate top-level function `"@, functions[i].name, "`"@)))
    } else {
        let (types, signature) = declared(known.types, functions[i]);
        registered(
            Known { types, signatures: known.signatures.insert(functions[i].name, signature) },
            functions,
            i + 1,
        )
    }
}

/// The number of functions called `main` from `i` on.
pub open spec fn main_count(functions: Seq<FunctionView>, i: int) -> nat
    decreases functions.len() - i,
{
    if i >= functions.len() {
        0
    } else if functions[i].name == "main"@ {
        1 + main_count(functions, i + 1)
    } else {
        main_count(functions, i + 1)
    }
}

/// The position of the first function called `main` from `i` on.
pub open spec fn main_index(functions: Seq<FunctionView>, i: int) -> int
    decreases functions.len() - i,
{
    if i >= functions.len() || functions[i].name == "main"@ {
        i
    } else {
        main_index(functions, i + 1)
    }
}

pub open spec fn main_checked(functions: Seq<FunctionView>) -> Outcome<()> {
    if main_count(functions, 0) != 1 {
        Err("executable program must contain exactly one top-level `main` function"@)
    } else if functions[main_index(functions, 0)].params.len() != 0 {
        Err("`main` must take zero parameters"@)
    } else {
        Ok(())
    }
}

/// The parameters from `i` on are in scope.
pub open spec fn params_scoped(
    scope: Scope,
    function: FunctionView,
    params: Seq<int>,
    i: int,
) -> Outcome<Scope>
    decreases function.params.len() - i,
{
    if i >= function.params.len() {
        Ok(scope)
    } else if scope.contains_key(function.params[i]) {
        Err(
            "duplicate parameter `"@ + function.params[i] + "` in function `"@ + function.name
                + "`"@,
        )
    } else {
        params_scoped(scope.insert(function.params[i], params[i]), function, params, i + 1)
    }
}

/// The body of a function has the type of its result.
pub open spec fn function_checked(
    signatures: Signatures,
    types: Types,
    function: FunctionView,
) -> Checked<()> {
    let signature = signatures[function.name];
    match params_scoped(Map::empty(), function, signature.params, 0) {
        Err(message) => (types, Err(message)),
        Ok(scope) => match block_checked(signatures, types, scope, function.body) {
            (types, Err(message)) => (types, Err(message)),
            (types, Ok(body)) => unified(types, signature.ret, body),
        },
    }
}

/// The functions from `i` on are checked.
pub open spec fn functions_checked(
    signatures: Signatures,
    types: Types,
    functions: Seq<FunctionView>,
    i: int,
) -> Checked<()>
    decreases functions.len() - i,
{
    if i >= functions.len() {
        (types, Ok(()))
    } else {
        match function_checked(signatures, types, functions[i]) {
            (types, Err(message)) => (types, Err(message)),
            (types, Ok(_)) => functions_checked(signatures, types, functions, i + 1),
        }
    }
}

/// The types of the slots of `ids` from `i` on.
pub open spec fn all_resolved(
    types: Types,
    ids: Seq<int>,
    i: int,
    label: Seq<char>,
) -> Outcome<Seq<PrimType>>
    decreases ids.len() - i,
{
    if i >= ids.len() {
        Ok(Seq::empty())
    } else {
        match resolved(types, ids[i], label) {
            Err(message) => Err(message),
            Ok(prim) => match all_resolved(types, ids, i + 1, label) {
                Err(message) => Err(message),
                Ok(rest) => Ok(seq![prim] + rest),
            },
        }
    }
}

pub open spec fn function_resolved(
    signatures: Signatures,
    types: Types,
    function: FunctionView,
) -> Outcome<TypedFunctionView> {
    let signature = signatures[function.name];
    match all_resolved(
        types,
        signature.params,
        0,
        quoted("parameter in `"@, function.name, "`"@),
    ) {
        Err(message) => Err(message),
        Ok(params) => match resolved(
            types,
            signature.ret,
            quoted("return type of `"@, function.name, "`"@),
        ) {
            Err(message) => Err(message),
            Ok(ret) => Ok(TypedFunctionView { name: function.name, params, ret }),
        },
    }
}

/// The functions from `i` on, with their types.
pub open spec fn functions_resolved(
    signatures: Signatures,
    types: Types,
    functions: Seq<FunctionView>,
    i: int,
) -> Outcome<Seq<TypedFunctionView>>
    decreases functions.len() - i,
{
    if i >= functions.len() {
        Ok(Seq::empty())
    } else {
        match function_resolved(signatures, types, functions[i]) {
            Err(message) => Err(message),
            Ok(typed) => match functions_resolved(signatures, types, functions, i + 1) {
                Err(message) => Err(message),
                Ok(rest) => Ok(seq![typed] + rest),
            },
        }
    }
}

/// The program with the types of its functions.
pub open spec fn program_checked(program: ProgramView) -> Outcome<TypedProgramView> {
    let empty = Known { types: Store::empty(), signatures: Map::empty() };
    match registered(empty, program.functions, 0) {
        (_, Err(message)) => Err(message),
        (known, Ok(_)) => match main_checked(program.functions) {
            Err(message) => Err(message),
            Ok(_) => match functions_checked(
                known.signatures,
                known.types,
                program.functions,
                0,
            ) {
                (_, Err(message)) => Err(message),
                (types, Ok(_)) => match functions_resolved(
                    known.signatures,
                    types,
                    program.functions,
                    0,
                ) {
                    Err(message) => Err(message),
                    Ok(functions) => Ok(TypedProgramView { functions }),
                },
            },
        },
    }
}

} // verus!
