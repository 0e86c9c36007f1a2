//! The type system of the seed language.
use vstd::prelude::*;

use crate::seed::ast::{
    BinaryOp, BlockItemView, BlockView, ExprView, FunctionView, MatchArmView, PrimType, ProgramView,
};
use crate::seed::matching::{covering, fits};
use crate::seed::typed::{TypedFunctionView, TypedProgramView};

verus! {

/// The types of the parameters and of the result of a function.
#[verifier::ext_equal]
pub struct Arrow {
    pub params: Seq<PrimType>,
    pub ret: PrimType,
}

pub type Arrows = Map<Seq<char>, Arrow>;

/// The types of the names in scope.
pub type Locals = Map<Seq<char>, PrimType>;

/// The type of an operation on values of two types.
pub open spec fn operation_type(op: BinaryOp, left: PrimType, right: PrimType) -> Option<PrimType> {
    match op {
        BinaryOp::Eq => if left == right {
            Some(PrimType::Bool)
        } else {
            None
        },
        _ => if left != PrimType::I32 || right != PrimType::I32 {
            None
        } else if op == BinaryOp::Lt {
            Some(PrimType::Bool)
        } else {
            Some(PrimType::I32)
        },
    }
}

/// The patterns of the arms from `i` on match values of the type.
pub open spec fn patterns_fit(prim: PrimType, arms: Seq<MatchArmView>, i: int) -> bool {
    forall|k: int|
        i <= k < arms.len() ==> fits(prim, (#[trigger] arms[k]).pattern)
}

/// The type of an expression, if it has one.
pub open spec fn expr_type(arrows: Arrows, locals: Locals, e: ExprView) -> Option<PrimType>
    decreases e, 0int,
{
    match e {
        ExprView::Int(_) => Some(PrimType::I32),
        ExprView::Bool(_) => Some(PrimType::Bool),
        ExprView::Unit => Some(PrimType::Unit),
        ExprView::Var(name) => if locals.contains_key(name) {
            Some(locals[name])
        } else {
            None
        },
        ExprView::Call { name, args } => if arrows.contains_key(name) && args.len()
            == arrows[name].params.len() && args_fit(arrows, locals, args, arrows[name].params, 0) {
            Some(arrows[name].ret)
        } else {
            None
        },
        ExprView::MethodCall { .. } => None,
        ExprView::Binary { op, left, right } => match (
            expr_type(arrows, locals, *left),
            expr_type(arrows, locals, *right),
        ) {
            (Some(left), Some(right)) => operation_type(op, left, right),
            _ => None,
        },
        ExprView::Match { scrutinee, arms } => match expr_type(arrows, locals, *scrutinee) {
            Some(prim) => if arms.len() > 0 && patterns_fit(prim, arms, 0) && covering(
                prim,
                arms,
            ) {
                arms_type(arrows, locals, arms)
            } else {
                None
            },
            None => None,
        },
        ExprView::Block(block) => block_type(arrows, locals, block),
    }
}

/// The arguments from `i` on have the types `params`.
pub open spec fn args_fit(
    arrows: Arrows,
    locals: Locals,
    args: Seq<ExprView>,
    params: Seq<PrimType>,
    i: int,
) -> bool
    decreases args, args.len() - i,
{
    if i < 0 || i >= args.len() {
        true
    } else {
        expr_type(arrows, locals, args[i]) == Some(params[i]) && args_fit(
            arrows,
            locals,
            args,
            params,
            i + 1,
        )
    }
}

pub open spec fn arm_type(arrows: Arrows, locals: Locals, arm: MatchArmView) -> Option<PrimType>
    decreases arm, 0int,
{
    expr_type(arrows, locals, arm.expr)
}

/// The one type of all arms.
pub open spec fn arms_type(arrows: Arrows, locals: Locals, arms: Seq<MatchArmView>) -> Option<
    PrimType,
>
    decreases arms, arms.len() + 1,
{
    if arms.len() == 0 {
        None
    } else {
        match arm_type(arrows, locals, arms[0]) {
            Some(prim) => if arms_fit(arrows, locals, arms, prim, 1) {
                Some(prim)
            } else {
                None
            },
            None => None,
        }
    }
}

/// The arms from `i` on have the type.
pub open spec fn arms_fit(
    arrows: Arrows,
    locals: Locals,
    arms: Seq<MatchArmView>,
    prim: PrimType,
    i: int,
) -> bool
    decreases arms, arms.len() - i,
{
    if i < 0 || i >= arms.len() {
        true
    } else {
        arm_type(arrows, locals, arms[i]) == Some(prim) && arms_fit(
            arrows,
            locals,
            arms,
            prim,
            i + 1,
        )
    }
}

/// The type of a block: that of its last item, where that is an expression.
pub open spec fn block_type(arrows: Arrows, locals: Locals, block: BlockView) -> Option<PrimType>
    decreases block, 0int,
{
    items_type(arrows, locals, block.items, 0, PrimType::Unit)
}

/// The type of a block whose items from `i` on are left, and whose type is `last` without them.
pub open spec fn items_type(
    arrows: Arrows,
    locals: Locals,
    items: Seq<BlockItemView>,
    i: int,
    last: PrimType,
) -> Option<PrimType>
    decreases items, items.len() - i,
{
    if i < 0 || i >= items.len() {
        Some(last)
    } else {
        match (items[i], item_type(arrows, locals, items[i])) {
            (_, None) => None,
            (BlockItemView::Binding { name, .. }, Some(prim)) => items_type(
                arrows,
                locals.insert(name, prim),
                items,
                i + 1,
                PrimType::Unit,
            ),
            (BlockItemView::Expr(_), Some(prim)) => items_type(arrows, locals, items, i + 1, prim),
        }
    }
}

/// The type of the expression of an item. A name that is in scope is not bound again.
pub open spec fn item_type(arrows: Arrows, locals: Locals, item: BlockItemView) -> Option<PrimType>
    decreases item, 0int,
{
    match item {
        BlockItemView::Binding { name, expr } => if locals.contains_key(name) {
            None
        } else {
            expr_type(arrows, locals, expr)
        },
        BlockItemView::Expr(expr) => expr_type(arrows, locals, expr),
    }
}

/// The names from `i` on with their types, besides those in `locals`.
pub open spec fn bound(
    locals: Locals,
    names: Seq<Seq<char>>,
    prims: Seq<PrimType>,
    i: int,
) -> Locals
    decreases names.len() - i,
{
    if i >= names.len() {
        locals
    } else {
        bound(locals.insert(names[i], prims[i]), names, prims, i + 1)
    }
}

/// The functions from `i` on with their types, besides those in `arrows`.
pub open spec fn arrows_of(arrows: Arrows, functions: Seq<TypedFunctionView>, i: int) -> Arrows
    decreases functions.len() - i,
{
    if i >= functions.len() {
        arrows
    } else {
        arrows_of(
            arrows.insert(
                functions[i].name,
                Arrow { params: functions[i].params, ret: functions[i].ret },
            ),
            functions,
            i + 1,
        )
    }
}

/// The names from `i` on differ.
pub open spec fn distinct(names: Seq<Seq<char>>, i: int) -> bool {
    forall|j: int, k: int| i <= j < k < names.len() ==> #[trigger] names[j] != #[trigger] names[k]
}

pub open spec fn function_names(functions: Seq<FunctionView>) -> Seq<Seq<char>> {
    functions.map_values(|f: FunctionView| f.name)
}

/// The types fit the header of a function.
pub open spec fn header_fits(function: FunctionView, typed: TypedFunctionView) -> bool {
    &&& typed.name == function.name
    &&& typed.params.len() == function.params.len()
    &&& function.return_annotation matches Some(prim) ==> typed.ret == prim
}

/// The parameters of a function differ, and its body has the type of its result.
pub open spec fn function_fits(
    arrows: Arrows,
    function: FunctionView,
    typed: TypedFunctionView,
) -> bool {
    &&& distinct(function.params, 0)
    &&& block_type(arrows, bound(Map::empty(), function.params, typed.params, 0), function.body)
        == Some(typed.ret)
}

/// One of the functions is called `main`, and takes no parameters.
pub open spec fn has_main(functions: Seq<FunctionView>) -> bool {
    exists|i: int|
        0 <= i < functions.len() && (#[trigger] functions[i]).name == "main"@
            && functions[i].params.len() == 0
}

/// `typed` gives each function of the program types under which the program is well typed.
pub open spec fn well_typed(program: ProgramView, typed: TypedProgramView) -> bool {
    let arrows = arrows_of(Map::empty(), typed.functions, 0);
    &&& distinct(function_names(program.functions), 0)
    &&& has_main(program.functions)
    &&& typed.functions.len() == program.functions.len()
    &&& forall|i: int|
        0 <= i < program.functions.len() ==> header_fits(
            #[trigger] program.functions[i],
            typed.functions[i],
        )
    &&& forall|i: int|
        0 <= i < program.functions.len() ==> function_fits(
            arrows,
            #[trigger] program.functions[i],
            typed.functions[i],
        )
}

} // verus!
