//! The values of well-typed programs have the types that are found for them.
use vstd::prelude::*;

use crate::seed::ast::{BlockItemView, BlockView, ExprView, MatchArmView, PrimType, ProgramView};
use crate::seed::evaluation::{
    arm_value, block_value, call_value, first_match, function_named, item_value, named, run,
    value_of, values_of, Names,
};
use crate::seed::matching::{value_type, Value};
use crate::seed::soundness::{lemma_arrows_of, typed_names};
use crate::seed::typed::TypedProgramView;
use crate::seed::typing::{
    args_fit, arm_type, arms_fit, arms_type, arrows_of, block_type, bound, distinct, expr_type,
    function_fits, function_names, header_fits, item_type, items_type, well_typed, Arrow, Arrows,
    Locals,
};

verus! {

/// The values of the names have the types of the names.
pub open spec fn names_fit(locals: Names, types: Locals) -> bool {
    forall|name: Seq<char>| #[trigger]
        locals.contains_key(name) ==> types.contains_key(name) && value_type(locals[name])
            == types[name]
}

/// The values have the types at their positions.
pub open spec fn values_fit(values: Seq<Value>, types: Seq<PrimType>) -> bool {
    &&& values.len() == types.len()
    &&& forall|i: int| 0 <= i < values.len() ==> value_type(#[trigger] values[i]) == types[i]
}

/// The types of the functions of a program.
pub open spec fn arrows(typed: TypedProgramView) -> Arrows {
    arrows_of(Map::empty(), typed.functions, 0)
}

proof fn lemma_bound(locals: Locals, names: Seq<Seq<char>>, types: Seq<PrimType>, i: int)
    requires
        0 <= i <= names.len(),
        distinct(names, 0),
        names.len() == types.len(),
        forall|k: int|
            0 <= k < i ==> locals.contains_key(#[trigger] names[k]) && locals[names[k]]
                == types[k],
    ensures
        forall|k: int|
            0 <= k < names.len() ==> bound(locals, names, types, i).contains_key(
                #[trigger] names[k],
            ) && bound(locals, names, types, i)[names[k]] == types[k],
    decreases names.len() - i,
{
    if i < names.len() {
        let more = locals.insert(names[i], types[i]);
        assert forall|k: int| 0 <= k < i + 1 implies more.contains_key(#[trigger] names[k])
            && more[names[k]] == types[k] by {
            if k < i {
                assert(names[k] != names[i]);
            }
        }
        lemma_bound(more, names, types, i + 1);
    }
}

/// Each name has the value at its position.
pub proof fn lemma_named(names: Seq<Seq<char>>, values: Seq<Value>)
    requires
        names.len() <= values.len(),
    ensures
        forall|name: Seq<char>| #[trigger]
            named(names, values).contains_key(name) ==> exists|k: int|
                0 <= k < names.len() && #[trigger] names[k] == name && named(names, values)[name]
                    == values[k],
    decreases names.len(),
{
    if names.len() > 0 {
        let less = names.drop_last();
        let n = names.len() - 1;
        lemma_named(less, values);
        assert forall|name: Seq<char>| #[trigger]
            named(names, values).contains_key(name) implies exists|k: int|
            0 <= k < names.len() && #[trigger] names[k] == name && named(names, values)[name]
                == values[k] by {
            if name == names[n] {
                assert(names[n] == name && named(names, values)[name] == values[n]);
            } else {
                assert(named(less, values).contains_key(name));
                let k = choose|k: int|
                    0 <= k < less.len() && #[trigger] less[k] == name && named(less, values)[name]
                        == values[k];
                assert(names[k] == name);
            }
        }
    }
}

/// A parameter is bound to the argument at its position: the first to the first, and so on.
pub proof fn law_bound(names: Seq<Seq<char>>, values: Seq<Value>, k: int)
    requires
        names.len() <= values.len(),
        distinct(names, 0),
        0 <= k < names.len(),
    ensures
        named(names, values).contains_key(names[k]),
        named(names, values)[names[k]] == values[k],
    decreases names.len(),
{
    let less = names.drop_last();
    if k < names.len() - 1 {
        assert(distinct(less, 0)) by {
            assert forall|i: int, j: int| 0 <= i < j < less.len() implies #[trigger] less[i]
                != #[trigger] less[j] by {
                assert(names[i] != names[j]);
            }
        }
        law_bound(less, values, k);
        assert(less[k] == names[k]);
        assert(names[k] != names[names.len() - 1]);
    }
}

/// A call has the value of the body of the function, where each parameter is bound to the value of
/// the argument at its position.
pub proof fn law_call(
    p: ProgramView,
    locals: Names,
    name: Seq<char>,
    args: Seq<ExprView>,
    values: Seq<Value>,
    depth: nat,
)
    requires
        depth > 0,
        values.len() == args.len(),
        forall|i: int|
            0 <= i < args.len() ==> value_of(p, locals, #[trigger] args[i], depth) == Some(
                values[i],
            ),
    ensures
        value_of(p, locals, ExprView::Call { name, args }, depth) == call_value(
            p,
            name,
            values,
            (depth - 1) as nat,
        ),
{
    lemma_all_values(p, locals, args, values, 0, depth);
    assert(values.skip(0) =~= values);
}

proof fn lemma_all_values(
    p: ProgramView,
    locals: Names,
    args: Seq<ExprView>,
    values: Seq<Value>,
    i: int,
    depth: nat,
)
    requires
        0 <= i <= args.len(),
        values.len() == args.len(),
        forall|i: int|
            0 <= i < args.len() ==> value_of(p, locals, #[trigger] args[i], depth) == Some(
                values[i],
            ),
    ensures
        values_of(p, locals, args, i, depth) == Some(values.skip(i)),
    decreases args.len() - i,
{
    if i < args.len() {
        lemma_all_values(p, locals, args, values, i + 1, depth);
        assert(value_of(p, locals, args[i], depth) == Some(values[i]));
        assert(seq![values[i]] + values.skip(i + 1) =~= values.skip(i));
    } else {
        assert(values.skip(i) =~= Seq::empty());
    }
}

proof fn lemma_params_fit(names: Seq<Seq<char>>, types: Seq<PrimType>, values: Seq<Value>)
    requires
        distinct(names, 0),
        names.len() == types.len(),
        values_fit(values, types),
    ensures
        names_fit(named(names, values), bound(Map::empty(), names, types, 0)),
{
    let locals = named(names, values);
    let fitting = bound(Map::empty(), names, types, 0);
    lemma_bound(Map::empty(), names, types, 0);
    lemma_named(names, values);
    assert forall|name: Seq<char>| #[trigger] locals.contains_key(name) implies fitting.contains_key(
        name,
    ) && value_type(locals[name]) == fitting[name] by {
        let k = choose|k: int|
            0 <= k < names.len() && #[trigger] names[k] == name && locals[name] == values[k];
        assert(fitting.contains_key(names[k]) && fitting[names[k]] == types[k]);
        assert(value_type(values[k]) == types[k]);
    }
}

/// The types of a function of a well-typed program are those under which it is called.
pub proof fn lemma_arrow(p: ProgramView, typed: TypedProgramView, k: int)
    requires
        well_typed(p, typed),
        0 <= k < p.functions.len(),
    ensures
        arrows(typed).contains_key(p.functions[k].name),
        arrows(typed)[p.functions[k].name] == (Arrow {
            params: typed.functions[k].params,
            ret: typed.functions[k].ret,
        }),
        header_fits(p.functions[k], typed.functions[k]),
        function_fits(arrows(typed), p.functions[k], typed.functions[k]),
{
    let names = typed_names(typed.functions);
    assert forall|i: int| 0 <= i < names.len() implies #[trigger] names[i] == function_names(
        p.functions,
    )[i] by {
        assert(header_fits(p.functions[i], typed.functions[i]));
    }
    assert(names =~= function_names(p.functions));
    lemma_arrows_of(Map::empty(), typed.functions, 0);
    assert(header_fits(p.functions[k], typed.functions[k]));
    assert(function_fits(arrows(typed), p.functions[k], typed.functions[k]));
    assert(names[k] == p.functions[k].name);
}

/// The value of an expression has the type of the expression.
pub proof fn lemma_value_type(
    p: ProgramView,
    typed: TypedProgramView,
    locals: Names,
    types: Locals,
    e: ExprView,
    depth: nat,
)
    requires
        well_typed(p, typed),
        names_fit(locals, types),
        expr_type(arrows(typed), types, e) is Some,
    ensures
        value_of(p, locals, e, depth) matches Some(value) ==> Some(value_type(value)) == expr_type(
            arrows(typed),
            types,
            e,
        ),
    decreases depth, e, 0int,
{
    match e {
        ExprView::Call { name, args } => {
            if let Some(values) = values_of(p, locals, args, 0, depth) {
                if let Some(k) = function_named(p.functions, name) {
                    let function = p.functions[k];
                    if depth > 0 && function.params.len() == values.len() {
                        lemma_arrow(p, typed, k);
                        let prims = typed.functions[k].params;
                        lemma_values_type(p, typed, locals, types, args, prims, 0, depth);
                        assert forall|i: int| 0 <= i < values.len() implies value_type(
                            #[trigger] values[i],
                        ) == prims[i] by {
                            assert(values[i - 0] == values[i]);
                        }
                        lemma_params_fit(function.params, prims, values);
                        lemma_block_type(
                            p,
                            typed,
                            named(function.params, values),
                            bound(Map::empty(), function.params, prims, 0),
                            function.body,
                            (depth - 1) as nat,
                        );
                    }
                }
            }
        },
        ExprView::Binary { op, left, right } => {
            lemma_value_type(p, typed, locals, types, *left, depth);
            lemma_value_type(p, typed, locals, types, *right, depth);
        },
        ExprView::Match { scrutinee, arms } => {
            if let Some(value) = value_of(p, locals, *scrutinee, depth) {
                let k = first_match(arms.map_values(|arm: MatchArmView| arm.pattern), value);
                if 0 <= k < arms.len() {
                    let prim = expr_type(arrows(typed), types, e)->Some_0;
                    lemma_each_arm_type(arrows(typed), types, arms, prim, k);
                    lemma_arm_type(p, typed, locals, types, arms[k], depth);
                }
            }
        },
        ExprView::Block(block) => lemma_block_type(p, typed, locals, types, block, depth),
        _ => {},
    }
}

proof fn lemma_each_arm_type(
    arrows: Arrows,
    types: Locals,
    arms: Seq<MatchArmView>,
    prim: PrimType,
    k: int,
)
    requires
        0 <= k < arms.len(),
        arms_type(arrows, types, arms) == Some(prim),
    ensures
        arm_type(arrows, types, arms[k]) == Some(prim),
{
    if k > 0 {
        lemma_later_arm_type(arrows, types, arms, prim, 1, k);
    }
}

proof fn lemma_later_arm_type(
    arrows: Arrows,
    types: Locals,
    arms: Seq<MatchArmView>,
    prim: PrimType,
    i: int,
    k: int,
)
    requires
        0 <= i <= k < arms.len(),
        arms_fit(arrows, types, arms, prim, i),
    ensures
        arm_type(arrows, types, arms[k]) == Some(prim),
    decreases k - i,
{
    if i < k {
        lemma_later_arm_type(arrows, types, arms, prim, i + 1, k);
    }
}

proof fn lemma_arm_type(
    p: ProgramView,
    typed: TypedProgramView,
    locals: Names,
    types: Locals,
    arm: MatchArmView,
    depth: nat,
)
    requires
        well_typed(p, typed),
        names_fit(locals, types),
        arm_type(arrows(typed), types, arm) is Some,
    ensures
        arm_value(p, locals, arm, depth) matches Some(value) ==> Some(value_type(value))
            == arm_type(arrows(typed), types, arm),
    decreases depth, arm, 0int,
{
    lemma_value_type(p, typed, locals, types, arm.expr, depth);
}

proof fn lemma_values_type(
    p: ProgramView,
    typed: TypedProgramView,
    locals: Names,
    types: Locals,
    args: Seq<ExprView>,
    prims: Seq<PrimType>,
    i: int,
    depth: nat,
)
    requires
        well_typed(p, typed),
        names_fit(locals, types),
        0 <= i <= args.len(),
        prims.len() == args.len(),
        args_fit(arrows(typed), types, args, prims, i),
    ensures
        values_of(p, locals, args, i, depth) matches Some(values) ==> values.len() == args.len() - i
            && forall|k: int|
            i <= k < args.len() ==> value_type(#[trigger] values[k - i]) == prims[k],
    decreases depth, args, args.len() - i,
{
    if i < args.len() {
        lemma_value_type(p, typed, locals, types, args[i], depth);
        lemma_values_type(p, typed, locals, types, args, prims, i + 1, depth);
        if let Some(values) = values_of(p, locals, args, i, depth) {
            let rest = values_of(p, locals, args, i + 1, depth)->Some_0;
            assert forall|k: int| i <= k < args.len() implies value_type(#[trigger] values[k - i])
                == prims[k] by {
                if k > i {
                    assert(values[k - i] == rest[k - (i + 1)]);
                }
            }
        }
    }
}

pub proof fn lemma_block_type(
    p: ProgramView,
    typed: TypedProgramView,
    locals: Names,
    types: Locals,
    block: BlockView,
    depth: nat,
)
    requires
        well_typed(p, typed),
        names_fit(locals, types),
        block_type(arrows(typed), types, block) is Some,
    ensures
        block_value(p, locals, block, depth) matches Some(value) ==> Some(value_type(value))
            == block_type(arrows(typed), types, block),
    decreases depth, block, 0int,
{
    lemma_run_type(p, typed, locals, types, block.items, 0, Value::Unit, depth);
}

proof fn lemma_run_type(
    p: ProgramView,
    typed: TypedProgramView,
    locals: Names,
    types: Locals,
    items: Seq<BlockItemView>,
    i: int,
    last: Value,
    depth: nat,
)
    requires
        well_typed(p, typed),
        names_fit(locals, types),
        0 <= i <= items.len(),
        items_type(arrows(typed), types, items, i, value_type(last)) is Some,
    ensures
        run(p, locals, items, i, last, depth) matches Some(value) ==> Some(value_type(value))
            == items_type(arrows(typed), types, items, i, value_type(last)),
    decreases depth, items, items.len() - i,
{
    if i < items.len() {
        lemma_item_type(p, typed, locals, types, items[i], depth);
        if let Some(value) = item_value(p, locals, items[i], depth) {
            match items[i] {
                BlockItemView::Binding { name, .. } => {
                    let more = locals.insert(name, value);
                    let known = types.insert(name, value_type(value));
                    assert forall|other: Seq<char>| #[trigger]
                        more.contains_key(other) implies known.contains_key(other) && value_type(
                        more[other],
                    ) == known[other] by {
                        if other != name {
                            assert(locals.contains_key(other));
                        }
                    }
                    lemma_run_type(p, typed, more, known, items, i + 1, Value::Unit, depth);
                },
                BlockItemView::Expr(_) => lemma_run_type(
                    p,
                    typed,
                    locals,
                    types,
                    items,
                    i + 1,
                    value,
                    depth,
                ),
            }
        }
    }
}

proof fn lemma_item_type(
    p: ProgramView,
    typed: TypedProgramView,
    locals: Names,
    types: Locals,
    item: BlockItemView,
    depth: nat,
)
    requires
        well_typed(p, typed),
        names_fit(locals, types),
        item_type(arrows(typed), types, item) is Some,
    ensures
        item_value(p, locals, item, depth) matches Some(value) ==> Some(value_type(value))
            == item_type(arrows(typed), types, item),
    decreases depth, item, 0int,
{
    match item {
        BlockItemView::Binding { expr, .. } => lemma_value_type(
            p,
            typed,
            locals,
            types,
            expr,
            depth,
        ),
        BlockItemView::Expr(expr) => lemma_value_type(p, typed, locals, types, expr, depth),
    }
}

/// A call of a function of a well-typed program, with arguments of the types of its parameters,
/// gives a value of the type of its result, if it gives one.
pub proof fn law_result_type(
    p: ProgramView,
    typed: TypedProgramView,
    k: int,
    values: Seq<Value>,
    depth: nat,
)
    requires
        well_typed(p, typed),
        0 <= k < p.functions.len(),
        values_fit(values, typed.functions[k].params),
    ensures
        call_value(p, p.functions[k].name, values, depth) matches Some(value) ==> value_type(value)
            == typed.functions[k].ret,
{
    let name = p.functions[k].name;
    let j = function_named(p.functions, name)->Some_0;
    assert(p.functions[k].name == name);
    let names = function_names(p.functions);
    assert(names[j] == names[k]);
    assert(j == k);
    lemma_arrow(p, typed, k);
    let function = p.functions[k];
    let prims = typed.functions[k].params;
    if function.params.len() == values.len() {
        lemma_params_fit(function.params, prims, values);
        lemma_block_type(
            p,
            typed,
            named(function.params, values),
            bound(Map::empty(), function.params, prims, 0),
            function.body,
            depth,
        );
    }
}

} // verus!
