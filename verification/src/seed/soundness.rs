//! The checker accepts only well-typed programs.
use vstd::prelude::*;

use crate::seed::ast::{
    BinaryOp, BlockItemView, BlockView, ExprView, FunctionView, MatchArmView, PrimType, ProgramView,
};
use crate::seed::inference::{
    all_resolved, args_checked, arm_checked, arms_checked, block_checked, constrained, declared,
    expr_checked, function_checked, function_resolved, functions_checked, functions_resolved,
    item_checked, items_checked, known, main_count, main_index, operation, params_scoped,
    pattern_prim, patterns_checked, program_checked, registered, signature_within, unified,
    with_fresh, Known, Scope, Signatures, Types,
};
use crate::seed::solution::{
    grown, lemma_arm_keeps, lemma_arms_keep, lemma_block_keeps, lemma_constrained_keeps,
    lemma_expr_keeps, lemma_item_keeps, lemma_known_keeps, lemma_patterns_keep, lemma_ready_grown,
    lemma_unified_keeps, ready, solved_scope, solved_signature, solved_signatures, solves, Solution,
};
use crate::seed::matching::{law_covering, law_fits};
use crate::seed::typed::{TypedFunctionView, TypedProgramView};
use crate::seed::typing::{
    args_fit, arm_type, arms_fit, arms_type, arrows_of, block_type, bound, distinct, expr_type,
    function_fits, function_names, item_type, items_type, operation_type, patterns_fit, well_typed,
    Arrow, Arrows,
};
use crate::slots::{scope_within, Store};
use crate::text::quoted;

verus! {

/// A solution after a slot was made is one before.
pub proof fn lemma_known_sound(types: Types, value: Option<PrimType>, solution: Solution)
    requires
        types.wf(),
        solves(solution, types.with(value)),
    ensures
        solves(solution, types),
        value matches Some(prim) ==> solution[types.len()] == prim,
{
    let after = types.with(value);
    assert forall|i: int| #[trigger] types.has(i) implies {
        &&& solution[i] == solution[types.roots[i]]
        &&& types.value_of(i) matches Some(prim) ==> solution[i] == prim
    } by {
        assert(after.has(i));
        assert(types.has(types.roots[i]));
    }
    assert(after.has(types.len()));
}

/// A solution after two slots were joined is one before, and gives them one type.
pub proof fn lemma_unified_sound(types: Types, a: int, b: int, solution: Solution)
    requires
        types.wf(),
        types.has(a),
        types.has(b),
        unified(types, a, b).1 is Ok,
        solves(solution, unified(types, a, b).0),
    ensures
        solves(solution, types),
        solution[a] == solution[b],
{
    let ra = types.roots[a];
    let rb = types.roots[b];
    let after = unified(types, a, b).0;
    assert(types.has(ra) && types.has(rb));
    assert(after.has(a) && after.has(b) && after.has(ra) && after.has(rb));
    assert forall|i: int| #[trigger] types.has(i) implies {
        &&& solution[i] == solution[types.roots[i]]
        &&& types.value_of(i) matches Some(prim) ==> solution[i] == prim
    } by {
        assert(after.has(i));
        assert(types.has(types.roots[i]));
        assert(after.has(types.roots[i]));
    }
}

pub proof fn lemma_constrained_sound(types: Types, id: int, prim: PrimType, solution: Solution)
    requires
        types.wf(),
        types.has(id),
        constrained(types, id, prim).1 is Ok,
        solves(solution, constrained(types, id, prim).0),
    ensures
        solves(solution, types),
        solution[id] == prim,
{
    let one = types.with(Some(prim));
    lemma_known_keeps(types, prim);
    lemma_unified_sound(one, id, types.len(), solution);
    lemma_known_sound(types, Some(prim), solution);
}

pub proof fn lemma_operation_sound(
    types: Types,
    op: BinaryOp,
    left: int,
    right: int,
    solution: Solution,
)
    requires
        types.wf(),
        types.has(left),
        types.has(right),
        operation(types, op, left, right).1 is Ok,
        solves(solution, operation(types, op, left, right).0),
    ensures
        solves(solution, types),
        operation_type(op, solution[left], solution[right]) == Some(
            solution[operation(types, op, left, right).1->Ok_0],
        ),
{
    if op == BinaryOp::Eq {
        lemma_unified_keeps(types, left, right);
        lemma_known_sound(unified(types, left, right).0, Some(PrimType::Bool), solution);
        lemma_unified_sound(types, left, right, solution);
    } else {
        let (one, _) = constrained(types, left, PrimType::I32);
        lemma_constrained_keeps(types, left, PrimType::I32);
        let (two, _) = constrained(one, right, PrimType::I32);
        lemma_constrained_keeps(one, right, PrimType::I32);
        let prim = if op == BinaryOp::Lt {
            PrimType::Bool
        } else {
            PrimType::I32
        };
        lemma_known_sound(two, Some(prim), solution);
        lemma_constrained_sound(one, right, PrimType::I32, solution);
        lemma_constrained_sound(types, left, PrimType::I32, solution);
    }
}

pub proof fn lemma_patterns_sound(
    types: Types,
    scrutinee: int,
    arms: Seq<MatchArmView>,
    i: int,
    solution: Solution,
)
    requires
        types.wf(),
        types.has(scrutinee),
        patterns_checked(types, scrutinee, arms, i).1 is Ok,
        solves(solution, patterns_checked(types, scrutinee, arms, i).0),
    ensures
        solves(solution, types),
        patterns_fit(solution[scrutinee], arms, i),
    decreases arms.len() - i,
{
    if i < arms.len() {
        law_fits(solution[scrutinee], arms[i].pattern);
        match pattern_prim(arms[i].pattern) {
            None => lemma_patterns_sound(types, scrutinee, arms, i + 1, solution),
            Some(prim) => {
                lemma_constrained_keeps(types, scrutinee, prim);
                lemma_patterns_sound(
                    constrained(types, scrutinee, prim).0,
                    scrutinee,
                    arms,
                    i + 1,
                    solution,
                );
                lemma_constrained_sound(types, scrutinee, prim, solution);
            },
        }
    }
}

pub proof fn lemma_expr_sound(
    signatures: Signatures,
    types: Types,
    scope: Scope,
    e: ExprView,
    solution: Solution,
)
    requires
        ready(signatures, types, scope),
        expr_checked(signatures, types, scope, e).1 is Ok,
        solves(solution, expr_checked(signatures, types, scope, e).0),
    ensures
        solves(solution, types),
        expr_type(
            solved_signatures(solution, signatures),
            solved_scope(solution, scope),
            e,
        ) == Some(solution[expr_checked(signatures, types, scope, e).1->Ok_0]),
    decreases e, 0int,
{
    let arrows = solved_signatures(solution, signatures);
    let locals = solved_scope(solution, scope);
    match e {
        ExprView::Int(_) => lemma_known_sound(types, Some(PrimType::I32), solution),
        ExprView::Bool(_) => lemma_known_sound(types, Some(PrimType::Bool), solution),
        ExprView::Unit => lemma_known_sound(types, Some(PrimType::Unit), solution),
        ExprView::Var(name) => {
            assert(locals.contains_key(name));
        },
        ExprView::Call { name, args } => {
            let signature = signatures[name];
            assert(signature_within(signature, types));
            assert(arrows.contains_key(name));
            assert(arrows[name] == solved_signature(solution, signature));
            lemma_args_sound(signatures, types, scope, args, signature.params, 0, solution);
        },
        ExprView::MethodCall { .. } => {},
        ExprView::Binary { op, left, right } => {
            lemma_expr_keeps(signatures, types, scope, *left);
            let (one, left_id) = expr_checked(signatures, types, scope, *left);
            lemma_ready_grown(signatures, types, scope, one);
            lemma_expr_keeps(signatures, one, scope, *right);
            let (two, right_id) = expr_checked(signatures, one, scope, *right);
            lemma_operation_sound(two, op, left_id->Ok_0, right_id->Ok_0, solution);
            lemma_expr_sound(signatures, one, scope, *right, solution);
            lemma_expr_sound(signatures, types, scope, *left, solution);
        },
        ExprView::Match { scrutinee, arms } => {
            lemma_expr_keeps(signatures, types, scope, *scrutinee);
            let (one, scrutinee_id) = expr_checked(signatures, types, scope, *scrutinee);
            let id = scrutinee_id->Ok_0;
            lemma_ready_grown(signatures, types, scope, one);
            lemma_patterns_keep(one, id, arms, 0);
            let (two, _) = patterns_checked(one, id, arms, 0);
            lemma_ready_grown(signatures, one, scope, two);
            lemma_arms_keep(signatures, two, scope, arms, 0, None);
            let (three, _) = arms_checked(signatures, two, scope, arms, 0, None);
            assert(three.has(id));
            lemma_arms_sound(signatures, two, scope, arms, 0, None, solution);
            lemma_patterns_sound(one, id, arms, 0, solution);
            lemma_expr_sound(signatures, types, scope, *scrutinee, solution);
            law_covering(solution[id], arms);
        },
        ExprView::Block(block) => lemma_block_sound(signatures, types, scope, block, solution),
    }
}

pub proof fn lemma_args_sound(
    signatures: Signatures,
    types: Types,
    scope: Scope,
    args: Seq<ExprView>,
    params: Seq<int>,
    i: int,
    solution: Solution,
)
    requires
        ready(signatures, types, scope),
        0 <= i,
        args.len() == params.len(),
        forall|k: int| 0 <= k < params.len() ==> types.has(#[trigger] params[k]),
        args_checked(signatures, types, scope, args, params, i).1 is Ok,
        solves(solution, args_checked(signatures, types, scope, args, params, i).0),
    ensures
        solves(solution, types),
        args_fit(
            solved_signatures(solution, signatures),
            solved_scope(solution, scope),
            args,
            Seq::new(params.len(), |k: int| solution[params[k]]),
            i,
        ),
    decreases args, args.len() - i,
{
    if i < args.len() {
        lemma_expr_keeps(signatures, types, scope, args[i]);
        let (one, arg) = expr_checked(signatures, types, scope, args[i]);
        lemma_unified_keeps(one, arg->Ok_0, params[i]);
        let (two, _) = unified(one, arg->Ok_0, params[i]);
        lemma_ready_grown(signatures, types, scope, two);
        lemma_args_sound(signatures, two, scope, args, params, i + 1, solution);
        lemma_unified_sound(one, arg->Ok_0, params[i], solution);
        lemma_expr_sound(signatures, types, scope, args[i], solution);
    }
}

pub proof fn lemma_arm_sound(
    signatures: Signatures,
    types: Types,
    scope: Scope,
    arm: MatchArmView,
    solution: Solution,
)
    requires
        ready(signatures, types, scope),
        arm_checked(signatures, types, scope, arm).1 is Ok,
        solves(solution, arm_checked(signatures, types, scope, arm).0),
    ensures
        solves(solution, types),
        arm_type(
            solved_signatures(solution, signatures),
            solved_scope(solution, scope),
            arm,
        ) == Some(solution[arm_checked(signatures, types, scope, arm).1->Ok_0]),
    decreases arm, 0int,
{
    lemma_expr_sound(signatures, types, scope, arm.expr, solution);
}

pub proof fn lemma_arms_sound(
    signatures: Signatures,
    types: Types,
    scope: Scope,
    arms: Seq<MatchArmView>,
    i: int,
    result: Option<int>,
    solution: Solution,
)
    requires
        ready(signatures, types, scope),
        0 <= i,
        result matches Some(id) ==> types.has(id),
        result is None ==> i == 0 < arms.len(),
        arms_checked(signatures, types, scope, arms, i, result).1 is Ok,
        solves(solution, arms_checked(signatures, types, scope, arms, i, result).0),
    ensures
        solves(solution, types),
        ({
            let arrows = solved_signatures(solution, signatures);
            let locals = solved_scope(solution, scope);
            let prim = solution[arms_checked(signatures, types, scope, arms, i, result).1->Ok_0];
            match result {
                Some(id) => prim == solution[id] && arms_fit(arrows, locals, arms, prim, i),
                None => arms_type(arrows, locals, arms) == Some(prim),
            }
        }),
    decreases arms, arms.len() - i,
{
    if i < arms.len() {
        lemma_arm_keeps(signatures, types, scope, arms[i]);
        let (one, arm) = arm_checked(signatures, types, scope, arms[i]);
        lemma_ready_grown(signatures, types, scope, one);
        match result {
            None => {
                lemma_arms_sound(
                    signatures,
                    one,
                    scope,
                    arms,
                    i + 1,
                    Some(arm->Ok_0),
                    solution,
                );
                lemma_arm_sound(signatures, types, scope, arms[i], solution);
            },
            Some(existing) => {
                lemma_unified_keeps(one, existing, arm->Ok_0);
                let (two, _) = unified(one, existing, arm->Ok_0);
                lemma_ready_grown(signatures, one, scope, two);
                lemma_arms_sound(signatures, two, scope, arms, i + 1, result, solution);
                lemma_unified_sound(one, existing, arm->Ok_0, solution);
                lemma_arm_sound(signatures, types, scope, arms[i], solution);
            },
        }
    }
}

pub proof fn lemma_block_sound(
    signatures: Signatures,
    types: Types,
    scope: Scope,
    block: BlockView,
    solution: Solution,
)
    requires
        ready(signatures, types, scope),
        block_checked(signatures, types, scope, block).1 is Ok,
        solves(solution, block_checked(signatures, types, scope, block).0),
    ensures
        solves(solution, types),
        block_type(
            solved_signatures(solution, signatures),
            solved_scope(solution, scope),
            block,
        ) == Some(solution[block_checked(signatures, types, scope, block).1->Ok_0]),
    decreases block, 0int,
{
    lemma_items_sound(signatures, types, scope, block.items, 0, None, solution);
}

/// The type of the slot of the expression before an item, or that of a block that ends with a
/// binding.
pub open spec fn last_type(solution: Solution, last: Option<int>) -> PrimType {
    match last {
        Some(id) => solution[id],
        None => PrimType::Unit,
    }
}

pub proof fn lemma_items_sound(
    signatures: Signatures,
    types: Types,
    scope: Scope,
    items: Seq<BlockItemView>,
    i: int,
    last: Option<int>,
    solution: Solution,
)
    requires
        ready(signatures, types, scope),
        0 <= i,
        last matches Some(id) ==> types.has(id),
        items_checked(signatures, types, scope, items, i, last).1 is Ok,
        solves(solution, items_checked(signatures, types, scope, items, i, last).0),
    ensures
        solves(solution, types),
        items_type(
            solved_signatures(solution, signatures),
            solved_scope(solution, scope),
            items,
            i,
            last_type(solution, last),
        ) == Some(solution[items_checked(signatures, types, scope, items, i, last).1->Ok_0]),
    decreases items, items.len() - i,
{
    if i < items.len() {
        lemma_item_keeps(signatures, types, scope, items[i]);
        let (one, item) = item_checked(signatures, types, scope, items[i]);
        lemma_ready_grown(signatures, types, scope, one);
        let id = item->Ok_0;
        match items[i] {
            BlockItemView::Binding { name, .. } => {
                let inner = scope.insert(name, id);
                lemma_items_sound(signatures, one, inner, items, i + 1, None, solution);
                assert(solved_scope(solution, inner) =~= solved_scope(solution, scope).insert(
                    name,
                    solution[id],
                ));
            },
            BlockItemView::Expr(_) => {
                lemma_items_sound(signatures, one, scope, items, i + 1, Some(id), solution);
            },
        }
        lemma_item_sound(signatures, types, scope, items[i], solution);
    } else if last is None {
        lemma_known_sound(types, Some(PrimType::Unit), solution);
    }
}

pub proof fn lemma_item_sound(
    signatures: Signatures,
    types: Types,
    scope: Scope,
    item: BlockItemView,
    solution: Solution,
)
    requires
        ready(signatures, types, scope),
        item_checked(signatures, types, scope, item).1 is Ok,
        solves(solution, item_checked(signatures, types, scope, item).0),
    ensures
        solves(solution, types),
        item_type(
            solved_signatures(solution, signatures),
            solved_scope(solution, scope),
            item,
        ) == Some(solution[item_checked(signatures, types, scope, item).1->Ok_0]),
    decreases item, 0int,
{
    match item {
        BlockItemView::Binding { name, expr } => lemma_expr_sound(
            signatures,
            types,
            scope,
            expr,
            solution,
        ),
        BlockItemView::Expr(expr) => lemma_expr_sound(signatures, types, scope, expr, solution),
    }
}


/// The types that the inference has found are a solution.
pub open spec fn found(types: Types) -> Solution {
    Seq::new(
        types.len() as nat,
        |i: int|
            match types.value_of(i) {
                Some(prim) => prim,
                None => PrimType::Unit,
            },
    )
}

pub proof fn lemma_found_solves(types: Types)
    requires
        types.wf(),
    ensures
        solves(found(types), types),
{
    assert forall|i: int| #[trigger] types.has(i) implies {
        &&& found(types)[i] == found(types)[types.roots[i]]
        &&& types.value_of(i) matches Some(prim) ==> found(types)[i] == prim
    } by {
        assert(types.has(types.roots[i]));
    }
}

pub proof fn lemma_with_keeps(types: Types, value: Option<PrimType>)
    requires
        types.wf(),
    ensures
        grown(types.with(value), types),
{
    let after = types.with(value);
    assert forall|i: int| #[trigger] after.has(i) implies after.has(after.roots[i])
        && after.roots[after.roots[i]] == after.roots[i] by {
        if i < types.len() {
            assert(types.has(i));
        }
    }
}

pub proof fn lemma_with_fresh(types: Types, count: nat)
    requires
        types.wf(),
    ensures
        grown(with_fresh(types, count), types),
        with_fresh(types, count).len() == types.len() + count,
    decreases count,
{
    if count > 0 {
        lemma_with_fresh(types, (count - 1) as nat);
        lemma_with_keeps(with_fresh(types, (count - 1) as nat), None);
    }
}

pub proof fn lemma_with_fresh_sound(types: Types, count: nat, solution: Solution)
    requires
        types.wf(),
        solves(solution, with_fresh(types, count)),
    ensures
        solves(solution, types),
    decreases count,
{
    if count > 0 {
        let one = with_fresh(types, (count - 1) as nat);
        lemma_with_fresh(types, (count - 1) as nat);
        lemma_known_sound(one, None, solution);
        lemma_with_fresh_sound(types, (count - 1) as nat, solution);
    }
}

pub proof fn lemma_declared(types: Types, function: FunctionView)
    requires
        types.wf(),
    ensures
        grown(declared(types, function).0, types),
        signature_within(declared(types, function).1, declared(types, function).0),
{
    lemma_with_fresh(types, function.params.len());
    lemma_with_keeps(with_fresh(types, function.params.len()), function.return_annotation);
}

/// The slots and signatures that a function is checked with.
pub open spec fn settled(known: Known) -> bool {
    ready(known.signatures, known.types, Map::empty())
}

pub proof fn lemma_declared_settled(known: Known, function: FunctionView)
    requires
        settled(known),
    ensures
        ({
            let (types, signature) = declared(known.types, function);
            settled(
                Known { types, signatures: known.signatures.insert(function.name, signature) },
            )
        }),
{
    let (types, signature) = declared(known.types, function);
    let signatures = known.signatures.insert(function.name, signature);
    lemma_declared(known.types, function);
    lemma_ready_grown(known.signatures, known.types, Map::empty(), types);
    assert forall|name: Seq<char>| #[trigger] signatures.contains_key(name) implies signature_within(
        signatures[name],
        types,
    ) by {
        if name != function.name {
            assert(known.signatures.contains_key(name));
        }
    }
}

/// What holds once the functions from `i` on are declared.
pub open spec fn all_registered(
    before: Known,
    after: Known,
    functions: Seq<FunctionView>,
    i: int,
) -> bool {
    let names = function_names(functions);
    &&& settled(after)
    &&& distinct(names, i)
    &&& forall|k: int|
        i <= k < functions.len() ==> !before.signatures.contains_key(#[trigger] names[k])
    &&& forall|name: Seq<char>| #[trigger]
        after.signatures.contains_key(name) ==> before.signatures.contains_key(name) || exists|
            k: int,
        |
            i <= k < functions.len() && #[trigger] names[k] == name
    &&& forall|name: Seq<char>| #[trigger]
        before.signatures.contains_key(name) ==> after.signatures.contains_key(name)
            && after.signatures[name] == before.signatures[name]
    &&& forall|k: int|
        i <= k < functions.len() ==> after.signatures.contains_key(#[trigger] names[k])
            && after.signatures[names[k]].params.len() == functions[k].params.len()
}

pub proof fn lemma_registered_sound(
    known: Known,
    functions: Seq<FunctionView>,
    i: int,
    solution: Solution,
)
    requires
        0 <= i <= functions.len(),
        settled(known),
        registered(known, functions, i).1 is Ok,
    ensures
        all_registered(known, registered(known, functions, i).0, functions, i),
        solves(solution, registered(known, functions, i).0.types) ==> {
            let after = registered(known, functions, i).0;
            &&& solves(solution, known.types)
            &&& forall|k: int|
                i <= k < functions.len() ==> ((#[trigger] functions[k]).return_annotation matches Some(
                    prim,
                ) ==> solution[after.signatures[functions[k].name].ret] == prim)
        },
    decreases functions.len() - i,
{
    let names = function_names(functions);
    let after = registered(known, functions, i).0;
    if i < functions.len() {
        let (types, signature) = declared(known.types, functions[i]);
        let next = Known {
            types,
            signatures: known.signatures.insert(functions[i].name, signature),
        };
        lemma_declared_settled(known, functions[i]);
        lemma_registered_sound(next, functions, i + 1, solution);
        assert(names[i] == functions[i].name);
        assert(next.signatures.contains_key(names[i]));
        assert forall|j: int, k: int| i <= j < k < names.len() implies #[trigger] names[j]
            != #[trigger] names[k] by {
            if j == i {
                assert(!next.signatures.contains_key(names[k]));
            }
        }
        assert forall|k: int| i <= k < functions.len() implies !known.signatures.contains_key(
            #[trigger] names[k],
        ) by {
            if k > i {
                assert(!next.signatures.contains_key(names[k]));
            }
        }
        assert forall|name: Seq<char>| #[trigger]
            after.signatures.contains_key(name) implies known.signatures.contains_key(name)
            || exists|k: int| i <= k < functions.len() && #[trigger] names[k] == name by {
            if next.signatures.contains_key(name) && name == names[i] {
            }
        }
        assert forall|name: Seq<char>| #[trigger]
            known.signatures.contains_key(name) implies after.signatures.contains_key(name)
            && after.signatures[name] == known.signatures[name] by {
            assert(next.signatures.contains_key(name));
        }
        if solves(solution, after.types) {
            let fresh = with_fresh(known.types, functions[i].params.len());
            lemma_with_fresh(known.types, functions[i].params.len());
            lemma_known_sound(fresh, functions[i].return_annotation, solution);
            lemma_with_fresh_sound(known.types, functions[i].params.len(), solution);
            assert(after.signatures[functions[i].name] == signature);
        }
    }
}

/// A scope of parameters has the types of their slots.
pub proof fn lemma_params_sound(
    scope: Scope,
    function: FunctionView,
    params: Seq<int>,
    i: int,
    types: Types,
    solution: Solution,
)
    requires
        0 <= i <= function.params.len(),
        params.len() == function.params.len(),
        scope_within(scope, types),
        forall|k: int| 0 <= k < params.len() ==> types.has(#[trigger] params[k]),
        params_scoped(scope, function, params, i) is Ok,
    ensures
        scope_within(
            params_scoped(scope, function, params, i)->Ok_0,
            types,
        ),
        solved_scope(solution, params_scoped(scope, function, params, i)->Ok_0) == bound(
            solved_scope(solution, scope),
            function.params,
            Seq::new(params.len(), |k: int| solution[params[k]]),
            i,
        ),
        distinct(function.params, i),
        forall|k: int|
            i <= k < function.params.len() ==> !scope.contains_key(#[trigger] function.params[k]),
    decreases function.params.len() - i,
{
    if i < function.params.len() {
        let next = scope.insert(function.params[i], params[i]);
        lemma_params_sound(next, function, params, i + 1, types, solution);
        assert(solved_scope(solution, next) =~= solved_scope(solution, scope).insert(
            function.params[i],
            solution[params[i]],
        ));
        assert forall|k: int| i <= k < function.params.len() implies !scope.contains_key(
            #[trigger] function.params[k],
        ) by {
            if k > i {
                assert(!next.contains_key(function.params[k]));
            }
        }
        assert forall|j: int, k: int|
            i <= j < k < function.params.len() implies #[trigger] function.params[j]
            != #[trigger] function.params[k] by {
            if j == i {
                assert(!next.contains_key(function.params[k]));
            }
        }
    }
}

/// The types of a function under a solution.
pub open spec fn solved_function(
    solution: Solution,
    signatures: Signatures,
    function: FunctionView,
) -> TypedFunctionView {
    let arrow = solved_signature(solution, signatures[function.name]);
    TypedFunctionView { name: function.name, params: arrow.params, ret: arrow.ret }
}

/// The functions from `i` on have signatures that fit their headers.
pub open spec fn signed(signatures: Signatures, functions: Seq<FunctionView>, i: int) -> bool {
    forall|k: int|
        i <= k < functions.len() ==> {
            &&& signatures.contains_key((#[trigger] functions[k]).name)
            &&& signatures[functions[k].name].params.len() == functions[k].params.len()
        }
}

pub proof fn lemma_function_sound(
    signatures: Signatures,
    types: Types,
    function: FunctionView,
    solution: Solution,
)
    requires
        ready(signatures, types, Map::empty()),
        signatures.contains_key(function.name),
        signatures[function.name].params.len() == function.params.len(),
    ensures
        grown(function_checked(signatures, types, function).0, types),
        function_checked(signatures, types, function).1 is Ok && solves(
            solution,
            function_checked(signatures, types, function).0,
        ) ==> {
            &&& solves(solution, types)
            &&& function_fits(
                solved_signatures(solution, signatures),
                function,
                solved_function(solution, signatures, function),
            )
        },
{
    let signature = signatures[function.name];
    assert(signature_within(signature, types));
    match params_scoped(Map::empty(), function, signature.params, 0) {
        Err(_) => {},
        Ok(scope) => {
            lemma_params_sound(Map::empty(), function, signature.params, 0, types, solution);
            assert(solved_scope(solution, Map::empty()) =~= Map::empty());
            lemma_block_keeps(signatures, types, scope, function.body);
            let (one, body) = block_checked(signatures, types, scope, function.body);
            if let Ok(id) = body {
                lemma_unified_keeps(one, signature.ret, id);
                let (two, result) = unified(one, signature.ret, id);
                if result is Ok && solves(solution, two) {
                    lemma_unified_sound(one, signature.ret, id, solution);
                    lemma_block_sound(signatures, types, scope, function.body, solution);
                }
            }
        },
    }
}

pub proof fn lemma_functions_sound(
    signatures: Signatures,
    types: Types,
    functions: Seq<FunctionView>,
    i: int,
    solution: Solution,
)
    requires
        ready(signatures, types, Map::empty()),
        0 <= i <= functions.len(),
        signed(signatures, functions, i),
    ensures
        grown(functions_checked(signatures, types, functions, i).0, types),
        functions_checked(signatures, types, functions, i).1 is Ok && solves(
            solution,
            functions_checked(signatures, types, functions, i).0,
        ) ==> {
            &&& solves(solution, types)
            &&& forall|k: int|
                i <= k < functions.len() ==> function_fits(
                    solved_signatures(solution, signatures),
                    #[trigger] functions[k],
                    solved_function(solution, signatures, functions[k]),
                )
        },
    decreases functions.len() - i,
{
    if i < functions.len() {
        lemma_function_sound(signatures, types, functions[i], solution);
        let (one, result) = function_checked(signatures, types, functions[i]);
        if result is Ok {
            lemma_ready_grown(signatures, types, Map::empty(), one);
            lemma_functions_sound(signatures, one, functions, i + 1, solution);
        }
    }
}

pub proof fn lemma_all_resolved(types: Types, ids: Seq<int>, i: int, label: Seq<char>)
    requires
        0 <= i <= ids.len(),
        types.wf(),
        forall|k: int| 0 <= k < ids.len() ==> types.has(#[trigger] ids[k]),
        all_resolved(types, ids, i, label) is Ok,
    ensures
        all_resolved(types, ids, i, label)->Ok_0 == Seq::new(
            (ids.len() - i) as nat,
            |k: int| found(types)[ids[i + k]],
        ),
    decreases ids.len() - i,
{
    let all = Seq::new((ids.len() - i) as nat, |k: int| found(types)[ids[i + k]]);
    if i < ids.len() {
        lemma_all_resolved(types, ids, i + 1, label);
        assert(all_resolved(types, ids, i, label)->Ok_0 =~= all);
    } else {
        assert(all =~= Seq::empty());
    }
}

pub proof fn lemma_functions_resolved(
    signatures: Signatures,
    types: Types,
    functions: Seq<FunctionView>,
    i: int,
)
    requires
        0 <= i <= functions.len(),
        ready(signatures, types, Map::empty()),
        signed(signatures, functions, i),
        functions_resolved(signatures, types, functions, i) is Ok,
    ensures
        functions_resolved(signatures, types, functions, i)->Ok_0 == Seq::new(
            (functions.len() - i) as nat,
            |k: int| solved_function(found(types), signatures, functions[i + k]),
        ),
    decreases functions.len() - i,
{
    let all = Seq::new(
        (functions.len() - i) as nat,
        |k: int| solved_function(found(types), signatures, functions[i + k]),
    );
    if i < functions.len() {
        let function = functions[i];
        let signature = signatures[function.name];
        let typed = solved_function(found(types), signatures, function);
        assert(signature_within(signature, types));
        lemma_all_resolved(
            types,
            signature.params,
            0,
            quoted("parameter in `"@, function.name, "`"@),
        );
        assert(function_resolved(signatures, types, function)->Ok_0.params =~= typed.params);
        lemma_functions_resolved(signatures, types, functions, i + 1);
        assert(functions_resolved(signatures, types, functions, i)->Ok_0 =~= all);
    } else {
        assert(all =~= Seq::empty());
    }
}

pub open spec fn typed_names(functions: Seq<TypedFunctionView>) -> Seq<Seq<char>> {
    functions.map_values(|f: TypedFunctionView| f.name)
}

/// Each of the functions from `i` on is found by its name.
pub proof fn lemma_arrows_of(arrows: Arrows, functions: Seq<TypedFunctionView>, i: int)
    requires
        0 <= i <= functions.len(),
        distinct(typed_names(functions), i),
    ensures
        ({
            let names = typed_names(functions);
            let after = arrows_of(arrows, functions, i);
            &&& forall|k: int|
                i <= k < functions.len() ==> {
                    &&& after.contains_key(#[trigger] names[k])
                    &&& after[names[k]] == (Arrow {
                        params: functions[k].params,
                        ret: functions[k].ret,
                    })
                }
            &&& forall|name: Seq<char>| #[trigger]
                after.contains_key(name) ==> arrows.contains_key(name) || exists|k: int|
                    i <= k < functions.len() && #[trigger] names[k] == name
            &&& forall|name: Seq<char>| #[trigger]
                arrows.contains_key(name) && (forall|k: int|
                    i <= k < functions.len() ==> #[trigger] names[k] != name)
                    ==> after.contains_key(name) && after[name] == arrows[name]
        }),
    decreases functions.len() - i,
{
    if i < functions.len() {
        let names = typed_names(functions);
        let next = arrows.insert(
            functions[i].name,
            Arrow { params: functions[i].params, ret: functions[i].ret },
        );
        let after = arrows_of(arrows, functions, i);
        lemma_arrows_of(next, functions, i + 1);
        assert(names[i] == functions[i].name);
        assert(next.contains_key(names[i]));
        assert forall|name: Seq<char>| #[trigger] after.contains_key(name) implies arrows.contains_key(
            name,
        ) || exists|k: int| i <= k < functions.len() && #[trigger] names[k] == name by {
            if next.contains_key(name) && name == names[i] {
            }
        }
        assert forall|name: Seq<char>| #[trigger]
            arrows.contains_key(name) && (forall|k: int|
                i <= k < functions.len() ==> #[trigger] names[k] != name) implies after.contains_key(
            name,
        ) && after[name] == arrows[name] by {
            assert(names[i] != name);
            assert(next.contains_key(name));
        }
    }
}

pub proof fn lemma_main_index(functions: Seq<FunctionView>, i: int)
    requires
        0 <= i <= functions.len(),
        main_count(functions, i) > 0,
    ensures
        i <= main_index(functions, i) < functions.len(),
        functions[main_index(functions, i)].name == "main"@,
    decreases functions.len() - i,
{
    if i < functions.len() && functions[i].name != "main"@ {
        lemma_main_index(functions, i + 1);
    }
}

/// Soundness: the types that the checker finds for a program are types under which the program
/// is well typed.
pub proof fn law_sound(program: ProgramView, typed: TypedProgramView)
    requires
        program_checked(program) == Ok::<TypedProgramView, Seq<char>>(typed),
    ensures
        well_typed(program, typed),
{
    let functions = program.functions;
    let names = function_names(functions);
    let empty = Known { types: Store::empty(), signatures: Map::empty() };
    let known = registered(empty, functions, 0).0;
    let signatures = known.signatures;
    let (types, _) = functions_checked(signatures, known.types, functions, 0);
    let solution = found(types);
    lemma_registered_sound(empty, functions, 0, solution);
    assert(signed(signatures, functions, 0)) by {
        assert forall|k: int| 0 <= k < functions.len() implies {
            &&& signatures.contains_key((#[trigger] functions[k]).name)
            &&& signatures[functions[k].name].params.len() == functions[k].params.len()
        } by {
            assert(names[k] == functions[k].name);
        }
    }
    lemma_functions_sound(signatures, known.types, functions, 0, solution);
    lemma_found_solves(types);
    lemma_ready_grown(signatures, known.types, Map::empty(), types);
    lemma_functions_resolved(signatures, types, functions, 0);
    assert forall|k: int| 0 <= k < functions.len() implies typed.functions[k] == solved_function(
        solution,
        signatures,
        #[trigger] functions[k],
    ) by {}
    assert(typed_names(typed.functions) =~= names);
    lemma_arrows_of(Map::empty(), typed.functions, 0);
    let arrows = arrows_of(Map::empty(), typed.functions, 0);
    assert(arrows =~= solved_signatures(solution, signatures)) by {
        assert forall|name: Seq<char>| arrows.contains_key(name)
            == signatures.contains_key(name) by {}
        assert forall|name: Seq<char>| signatures.contains_key(name) implies #[trigger] arrows[name]
            == solved_signature(solution, signatures[name]) by {
            let k = choose|k: int| 0 <= k < functions.len() && #[trigger] names[k] == name;
            assert(names[k] == name);
            assert(typed.functions[k] == solved_function(solution, signatures, functions[k]));
        }
    }
    lemma_main_index(functions, 0);
}

} // verus!
