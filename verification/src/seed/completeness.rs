//! The checker rejects a well-typed program only where it finds too little to tell a type.
use vstd::prelude::*;

use crate::seed::ast::{
    BinaryOp, BlockItemView, BlockView, ExprView, FunctionView, MatchArmView, PrimType, ProgramView,
};
use crate::seed::inference::{
    all_resolved, args_checked, arm_checked, arms_checked, block_checked, constrained, declared,
    expr_checked, function_checked, function_resolved, functions_checked, functions_resolved,
    item_checked, items_checked, known, main_checked, main_count, main_index, operation,
    params_scoped, pattern_prim, patterns_checked, program_checked, registered, signature_within,
    unified, with_fresh, Checked, Known, Scope, Signatures, Types,
};
use crate::seed::solution::{
    extends, lemma_arm_keeps, lemma_arms_keep, lemma_block_keeps, lemma_constrained_keeps,
    lemma_expr_keeps, lemma_item_keeps, lemma_known_keeps, lemma_patterns_keep, lemma_ready_grown,
    lemma_unified_keeps, ready, solved_scope, solved_signature, solved_signatures, solves, Solution,
};
use crate::seed::soundness::{
    last_type, law_sound, lemma_arms_sound, lemma_arrows_of, lemma_main_index, lemma_patterns_sound,
    lemma_declared_settled, lemma_function_sound, lemma_functions_sound, lemma_params_sound,
    lemma_registered_sound, lemma_with_fresh, settled, signed, solved_function, typed_names,
};
use crate::seed::matching::{law_covering, law_fits};
use crate::seed::typed::{TypedFunctionView, TypedProgramView};
use crate::seed::typing::{
    args_fit, arm_type, arms_fit, arms_type, arrows_of, block_type, distinct, expr_type,
    function_fits, function_names, header_fits, item_type, items_type, operation_type, patterns_fit,
    well_typed,
};
use crate::slots::Store;
use crate::text::quoted;

verus! {

/// The diagnostic of a type that is not told by what was found.
pub open spec fn undetermined(message: Seq<char>) -> bool {
    exists|label: Seq<char>| message == #[trigger] ("could not infer "@ + label)
}

/// Each match in the expression has a pattern that tells the type of its scrutinee.
pub open spec fn told(e: ExprView) -> bool
    decreases e, 0int,
{
    match e {
        ExprView::Int(_) | ExprView::Bool(_) | ExprView::Unit | ExprView::Var(_) => true,
        ExprView::Call { args, .. } => all_told(args, 0),
        ExprView::MethodCall { receiver, args, .. } => told(*receiver) && all_told(args, 0),
        ExprView::Binary { left, right, .. } => told(*left) && told(*right),
        ExprView::Match { scrutinee, arms } => told(*scrutinee) && arms_told(arms, 0) && exists|
            k: int,
        |
            0 <= k < arms.len() && !((#[trigger] arms[k]).pattern is Wildcard),
        ExprView::Block(block) => block_told(block),
    }
}

pub open spec fn all_told(list: Seq<ExprView>, i: int) -> bool
    decreases list, list.len() - i,
{
    0 <= i < list.len() ==> told(list[i]) && all_told(list, i + 1)
}

pub open spec fn arm_told(arm: MatchArmView) -> bool
    decreases arm, 0int,
{
    told(arm.expr)
}

pub open spec fn arms_told(arms: Seq<MatchArmView>, i: int) -> bool
    decreases arms, arms.len() - i,
{
    0 <= i < arms.len() ==> arm_told(arms[i]) && arms_told(arms, i + 1)
}

pub open spec fn block_told(block: BlockView) -> bool
    decreases block, 0int,
{
    items_told(block.items, 0)
}

pub open spec fn item_told(item: BlockItemView) -> bool
    decreases item, 0int,
{
    match item {
        BlockItemView::Binding { expr, .. } => told(expr),
        BlockItemView::Expr(expr) => told(expr),
    }
}

pub open spec fn items_told(items: Seq<BlockItemView>, i: int) -> bool
    decreases items, items.len() - i,
{
    0 <= i < items.len() ==> item_told(items[i]) && items_told(items, i + 1)
}

/// A solution that gives the type to the slot, where nothing was found for it.
pub open spec fn chosen(types: Types, id: int, prim: PrimType) -> Solution {
    Seq::new(
        types.len() as nat,
        |i: int|
            match types.value_of(i) {
                Some(known) => known,
                None => if types.roots[i] == types.roots[id] {
                    prim
                } else {
                    PrimType::Unit
                },
            },
    )
}

pub proof fn lemma_chosen(types: Types, id: int, prim: PrimType)
    requires
        types.wf(),
        types.has(id),
        types.value_of(id) is None,
    ensures
        solves(chosen(types, id, prim), types),
        chosen(types, id, prim).len() == types.len(),
        chosen(types, id, prim)[id] == prim,
{
    let solution = chosen(types, id, prim);
    assert forall|i: int| #[trigger] types.has(i) implies {
        &&& solution[i] == solution[types.roots[i]]
        &&& types.value_of(i) matches Some(known) ==> solution[i] == known
    } by {
        assert(types.has(types.roots[i]));
    }
}

/// A solution of exactly the slots of a store.
pub open spec fn exact(solution: Solution, types: Types) -> bool {
    &&& solution.len() == types.len()
    &&& solves(solution, types)
}

/// The step finds a slot of the type, or too little.
pub open spec fn reaches(
    step: Checked<int>,
    before: Solution,
    after: Solution,
    prim: PrimType,
) -> bool {
    match step.1 {
        Ok(id) => exact(after, step.0) && extends(after, before) && after[id] == prim,
        Err(message) => undetermined(message),
    }
}

/// The step succeeds, or finds too little.
pub open spec fn passes(step: Checked<()>, before: Solution, after: Solution) -> bool {
    match step.1 {
        Ok(_) => exact(after, step.0) && extends(after, before),
        Err(message) => undetermined(message),
    }
}

pub proof fn lemma_extended(
    signatures: Signatures,
    types: Types,
    scope: Scope,
    before: Solution,
    after: Solution,
)
    requires
        ready(signatures, types, scope),
        before.len() == types.len(),
        extends(after, before),
    ensures
        solved_signatures(after, signatures) == solved_signatures(before, signatures),
        solved_scope(after, scope) == solved_scope(before, scope),
{
    assert forall|name: Seq<char>| signatures.contains_key(name) implies #[trigger] solved_signature(
        after,
        signatures[name],
    ) == solved_signature(before, signatures[name]) by {
        let signature = signatures[name];
        assert(signature_within(signature, types));
        assert(after[signature.ret] == before[signature.ret]);
        assert(solved_signature(after, signature).params =~= solved_signature(
            before,
            signature,
        ).params) by {
            assert forall|i: int| 0 <= i < signature.params.len() implies after[signature.params[i]]
                == before[signature.params[i]] by {
                assert(types.has(signature.params[i]));
            }
        }
    }
    assert(solved_signatures(after, signatures) =~= solved_signatures(before, signatures));
    assert forall|name: Seq<char>| scope.contains_key(name) implies after[#[trigger] scope[name]]
        == before[scope[name]] by {
        assert(types.has(scope[name]));
    }
    assert(solved_scope(after, scope) =~= solved_scope(before, scope));
}

pub proof fn lemma_with_complete(
    types: Types,
    value: Option<PrimType>,
    prim: PrimType,
    solution: Solution,
)
    requires
        types.wf(),
        exact(solution, types),
        value matches Some(wanted) ==> prim == wanted,
    ensures
        exact(solution.push(prim), types.with(value)),
        extends(solution.push(prim), solution),
{
    let after = types.with(value);
    let longer = solution.push(prim);
    assert forall|i: int| #[trigger] after.has(i) implies {
        &&& longer[i] == longer[after.roots[i]]
        &&& after.value_of(i) matches Some(prim) ==> longer[i] == prim
    } by {
        if i < types.len() {
            assert(types.has(i));
            assert(types.has(types.roots[i]));
        }
    }
}

pub proof fn lemma_unified_complete(types: Types, a: int, b: int, solution: Solution)
    requires
        types.wf(),
        types.has(a),
        types.has(b),
        exact(solution, types),
        solution[a] == solution[b],
    ensures
        unified(types, a, b).1 is Ok,
        exact(solution, unified(types, a, b).0),
{
    let ra = types.roots[a];
    let rb = types.roots[b];
    assert(types.has(ra) && types.has(rb));
    let after = unified(types, a, b).0;
    assert forall|i: int| #[trigger] after.has(i) implies {
        &&& solution[i] == solution[after.roots[i]]
        &&& after.value_of(i) matches Some(prim) ==> solution[i] == prim
    } by {
        assert(types.has(i));
        assert(types.has(types.roots[i]));
    }
}

pub proof fn lemma_constrained_complete(types: Types, id: int, prim: PrimType, solution: Solution)
    requires
        types.wf(),
        types.has(id),
        exact(solution, types),
        solution[id] == prim,
    ensures
        constrained(types, id, prim).1 is Ok,
        exact(solution.push(prim), constrained(types, id, prim).0),
        extends(solution.push(prim), solution),
{
    lemma_with_complete(types, Some(prim), prim, solution);
    lemma_known_keeps(types, prim);
    lemma_unified_complete(types.with(Some(prim)), id, types.len(), solution.push(prim));
}

pub proof fn lemma_operation_complete(
    types: Types,
    op: BinaryOp,
    left: int,
    right: int,
    prim: PrimType,
    solution: Solution,
) -> (after: Solution)
    requires
        types.wf(),
        types.has(left),
        types.has(right),
        exact(solution, types),
        operation_type(op, solution[left], solution[right]) == Some(prim),
    ensures
        reaches(operation(types, op, left, right), solution, after, prim),
        operation(types, op, left, right).1 is Ok,
{
    if op == BinaryOp::Eq {
        lemma_unified_complete(types, left, right, solution);
        lemma_unified_keeps(types, left, right);
        lemma_with_complete(unified(types, left, right).0, Some(prim), prim, solution);
        solution.push(prim)
    } else {
        lemma_constrained_complete(types, left, PrimType::I32, solution);
        lemma_constrained_keeps(types, left, PrimType::I32);
        let (one, _) = constrained(types, left, PrimType::I32);
        let first = solution.push(PrimType::I32);
        lemma_constrained_complete(one, right, PrimType::I32, first);
        lemma_constrained_keeps(one, right, PrimType::I32);
        let (two, _) = constrained(one, right, PrimType::I32);
        let second = first.push(PrimType::I32);
        lemma_with_complete(two, Some(prim), prim, second);
        second.push(prim)
    }
}

pub proof fn lemma_patterns_complete(
    types: Types,
    scrutinee: int,
    arms: Seq<MatchArmView>,
    i: int,
    solution: Solution,
) -> (after: Solution)
    requires
        types.wf(),
        types.has(scrutinee),
        exact(solution, types),
        patterns_fit(solution[scrutinee], arms, i),
    ensures
        passes(patterns_checked(types, scrutinee, arms, i), solution, after),
        patterns_checked(types, scrutinee, arms, i).1 is Ok,
    decreases arms.len() - i,
{
    if i < arms.len() {
        law_fits(solution[scrutinee], arms[i].pattern);
        match pattern_prim(arms[i].pattern) {
            None => lemma_patterns_complete(types, scrutinee, arms, i + 1, solution),
            Some(prim) => {
                lemma_constrained_complete(types, scrutinee, prim, solution);
                lemma_constrained_keeps(types, scrutinee, prim);
                lemma_patterns_complete(
                    constrained(types, scrutinee, prim).0,
                    scrutinee,
                    arms,
                    i + 1,
                    solution.push(prim),
                )
            },
        }
    } else {
        solution
    }
}

pub proof fn lemma_expr_complete(
    signatures: Signatures,
    types: Types,
    scope: Scope,
    e: ExprView,
    prim: PrimType,
    solution: Solution,
) -> (after: Solution)
    requires
        ready(signatures, types, scope),
        exact(solution, types),
        expr_type(
            solved_signatures(solution, signatures),
            solved_scope(solution, scope),
            e,
        ) == Some(prim),
    ensures
        reaches(expr_checked(signatures, types, scope, e), solution, after, prim),
        told(e) ==> expr_checked(signatures, types, scope, e).1 is Ok,
    decreases e, 0int,
{
    let arrows = solved_signatures(solution, signatures);
    let locals = solved_scope(solution, scope);
    match e {
        ExprView::Int(_) => {
            lemma_with_complete(types, Some(prim), prim, solution);
            solution.push(prim)
        },
        ExprView::Bool(_) => {
            lemma_with_complete(types, Some(prim), prim, solution);
            solution.push(prim)
        },
        ExprView::Unit => {
            lemma_with_complete(types, Some(prim), prim, solution);
            solution.push(prim)
        },
        ExprView::Var(name) => solution,
        ExprView::Call { name, args } => {
            let signature = signatures[name];
            assert(signature_within(signature, types));
            assert(arrows[name] == solved_signature(solution, signature));
            lemma_args_complete(signatures, types, scope, args, signature.params, 0, solution)
        },
        ExprView::MethodCall { .. } => solution,
        ExprView::Binary { op, left, right } => {
            let left_prim = expr_type(arrows, locals, *left)->Some_0;
            let right_prim = expr_type(arrows, locals, *right)->Some_0;
            lemma_expr_keeps(signatures, types, scope, *left);
            let first = lemma_expr_complete(signatures, types, scope, *left, left_prim, solution);
            let (one, left_id) = expr_checked(signatures, types, scope, *left);
            if left_id is Err {
                return solution;
            }
            lemma_ready_grown(signatures, types, scope, one);
            lemma_extended(signatures, types, scope, solution, first);
            lemma_expr_keeps(signatures, one, scope, *right);
            let second = lemma_expr_complete(signatures, one, scope, *right, right_prim, first);
            let (two, right_id) = expr_checked(signatures, one, scope, *right);
            if right_id is Err {
                return solution;
            }
            lemma_operation_complete(two, op, left_id->Ok_0, right_id->Ok_0, prim, second)
        },
        ExprView::Match { scrutinee, arms } => {
            let scrutinee_prim = expr_type(arrows, locals, *scrutinee)->Some_0;
            lemma_expr_keeps(signatures, types, scope, *scrutinee);
            let first = lemma_expr_complete(
                signatures,
                types,
                scope,
                *scrutinee,
                scrutinee_prim,
                solution,
            );
            let (one, scrutinee_id) = expr_checked(signatures, types, scope, *scrutinee);
            if scrutinee_id is Err {
                return solution;
            }
            let id = scrutinee_id->Ok_0;
            lemma_ready_grown(signatures, types, scope, one);
            lemma_extended(signatures, types, scope, solution, first);
            lemma_patterns_keep(one, id, arms, 0);
            let second = lemma_patterns_complete(one, id, arms, 0, first);
            let (two, fit) = patterns_checked(one, id, arms, 0);
            if fit is Err {
                return solution;
            }
            lemma_ready_grown(signatures, one, scope, two);
            lemma_extended(signatures, one, scope, first, second);
            lemma_arms_keep(signatures, two, scope, arms, 0, None);
            let third = lemma_arms_complete(signatures, two, scope, arms, 0, None, prim, second);
            let (three, result) = arms_checked(signatures, two, scope, arms, 0, None);
            if result is Err {
                return solution;
            }
            assert(three.has(id));
            assert(third[id] == scrutinee_prim);
            law_covering(scrutinee_prim, arms);
            if told(e) && three.value_of(id) is None {
                let k = choose|k: int|
                    0 <= k < arms.len() && !((#[trigger] arms[k]).pattern is Wildcard);
                let other = if pattern_prim(arms[k].pattern) == Some(PrimType::Unit) {
                    PrimType::Bool
                } else {
                    PrimType::Unit
                };
                let choice = chosen(three, id, other);
                lemma_chosen(three, id, other);
                lemma_arms_sound(signatures, two, scope, arms, 0, None, choice);
                lemma_patterns_sound(one, id, arms, 0, choice);
                law_fits(other, arms[k].pattern);
                assert(patterns_fit(choice[id], arms, 0));
                assert(false);
            }
            third
        },
        ExprView::Block(block) => lemma_block_complete(
            signatures,
            types,
            scope,
            block,
            prim,
            solution,
        ),
    }
}

pub proof fn lemma_args_complete(
    signatures: Signatures,
    types: Types,
    scope: Scope,
    args: Seq<ExprView>,
    params: Seq<int>,
    i: int,
    solution: Solution,
) -> (after: Solution)
    requires
        ready(signatures, types, scope),
        0 <= i,
        args.len() == params.len(),
        forall|k: int| 0 <= k < params.len() ==> types.has(#[trigger] params[k]),
        exact(solution, types),
        args_fit(
            solved_signatures(solution, signatures),
            solved_scope(solution, scope),
            args,
            Seq::new(params.len(), |k: int| solution[params[k]]),
            i,
        ),
    ensures
        passes(args_checked(signatures, types, scope, args, params, i), solution, after),
        all_told(args, i) ==> args_checked(signatures, types, scope, args, params, i).1 is Ok,
    decreases args, args.len() - i,
{
    if i < args.len() {
        let prim = solution[params[i]];
        lemma_expr_keeps(signatures, types, scope, args[i]);
        let first = lemma_expr_complete(signatures, types, scope, args[i], prim, solution);
        let (one, arg) = expr_checked(signatures, types, scope, args[i]);
        if arg is Err {
            return solution;
        }
        assert(types.has(params[i]));
        assert(first[params[i]] == prim);
        lemma_extended(signatures, types, scope, solution, first);
        lemma_unified_complete(one, arg->Ok_0, params[i], first);
        lemma_unified_keeps(one, arg->Ok_0, params[i]);
        let (two, _) = unified(one, arg->Ok_0, params[i]);
        lemma_ready_grown(signatures, types, scope, two);
        assert(Seq::new(params.len(), |k: int| solution[params[k]]) =~= Seq::new(
            params.len(),
            |k: int| first[params[k]],
        )) by {
            assert forall|k: int| 0 <= k < params.len() implies solution[params[k]]
                == first[params[k]] by {
                assert(types.has(params[k]));
            }
        }
        lemma_args_complete(signatures, two, scope, args, params, i + 1, first)
    } else {
        solution
    }
}

pub proof fn lemma_arm_complete(
    signatures: Signatures,
    types: Types,
    scope: Scope,
    arm: MatchArmView,
    prim: PrimType,
    solution: Solution,
) -> (after: Solution)
    requires
        ready(signatures, types, scope),
        exact(solution, types),
        arm_type(
            solved_signatures(solution, signatures),
            solved_scope(solution, scope),
            arm,
        ) == Some(prim),
    ensures
        reaches(arm_checked(signatures, types, scope, arm), solution, after, prim),
        arm_told(arm) ==> arm_checked(signatures, types, scope, arm).1 is Ok,
    decreases arm, 0int,
{
    lemma_expr_complete(signatures, types, scope, arm.expr, prim, solution)
}

pub proof fn lemma_arms_complete(
    signatures: Signatures,
    types: Types,
    scope: Scope,
    arms: Seq<MatchArmView>,
    i: int,
    result: Option<int>,
    prim: PrimType,
    solution: Solution,
) -> (after: Solution)
    requires
        ready(signatures, types, scope),
        0 <= i,
        exact(solution, types),
        result matches Some(id) ==> types.has(id) && solution[id] == prim && arms_fit(
            solved_signatures(solution, signatures),
            solved_scope(solution, scope),
            arms,
            prim,
            i,
        ),
        result is None ==> i == 0 && arms_type(
            solved_signatures(solution, signatures),
            solved_scope(solution, scope),
            arms,
        ) == Some(prim),
    ensures
        reaches(arms_checked(signatures, types, scope, arms, i, result), solution, after, prim),
        arms_told(arms, i) ==> arms_checked(signatures, types, scope, arms, i, result).1 is Ok,
    decreases arms, arms.len() - i,
{
    if i < arms.len() {
        lemma_arm_keeps(signatures, types, scope, arms[i]);
        let first = lemma_arm_complete(signatures, types, scope, arms[i], prim, solution);
        let (one, arm) = arm_checked(signatures, types, scope, arms[i]);
        if arm is Err {
            return solution;
        }
        lemma_ready_grown(signatures, types, scope, one);
        lemma_extended(signatures, types, scope, solution, first);
        match result {
            None => lemma_arms_complete(
                signatures,
                one,
                scope,
                arms,
                i + 1,
                Some(arm->Ok_0),
                prim,
                first,
            ),
            Some(existing) => {
                lemma_unified_complete(one, existing, arm->Ok_0, first);
                lemma_unified_keeps(one, existing, arm->Ok_0);
                let (two, _) = unified(one, existing, arm->Ok_0);
                lemma_ready_grown(signatures, one, scope, two);
                lemma_arms_complete(signatures, two, scope, arms, i + 1, result, prim, first)
            },
        }
    } else {
        solution
    }
}

pub proof fn lemma_block_complete(
    signatures: Signatures,
    types: Types,
    scope: Scope,
    block: BlockView,
    prim: PrimType,
    solution: Solution,
) -> (after: Solution)
    requires
        ready(signatures, types, scope),
        exact(solution, types),
        block_type(
            solved_signatures(solution, signatures),
            solved_scope(solution, scope),
            block,
        ) == Some(prim),
    ensures
        reaches(block_checked(signatures, types, scope, block), solution, after, prim),
        block_told(block) ==> block_checked(signatures, types, scope, block).1 is Ok,
    decreases block, 0int,
{
    lemma_items_complete(signatures, types, scope, block.items, 0, None, prim, solution)
}

pub proof fn lemma_items_complete(
    signatures: Signatures,
    types: Types,
    scope: Scope,
    items: Seq<BlockItemView>,
    i: int,
    last: Option<int>,
    prim: PrimType,
    solution: Solution,
) -> (after: Solution)
    requires
        ready(signatures, types, scope),
        0 <= i,
        exact(solution, types),
        last matches Some(id) ==> types.has(id),
        items_type(
            solved_signatures(solution, signatures),
            solved_scope(solution, scope),
            items,
            i,
            last_type(solution, last),
        ) == Some(prim),
    ensures
        reaches(items_checked(signatures, types, scope, items, i, last), solution, after, prim),
        items_told(items, i) ==> items_checked(signatures, types, scope, items, i, last).1 is Ok,
    decreases items, items.len() - i,
{
    if i < items.len() {
        let arrows = solved_signatures(solution, signatures);
        let locals = solved_scope(solution, scope);
        let item_prim = item_type(arrows, locals, items[i])->Some_0;
        lemma_item_keeps(signatures, types, scope, items[i]);
        let first = lemma_item_complete(signatures, types, scope, items[i], item_prim, solution);
        let (one, item) = item_checked(signatures, types, scope, items[i]);
        if item is Err {
            return solution;
        }
        lemma_ready_grown(signatures, types, scope, one);
        lemma_extended(signatures, types, scope, solution, first);
        let id = item->Ok_0;
        match items[i] {
            BlockItemView::Binding { name, .. } => {
                let inner = scope.insert(name, id);
                assert(solved_scope(first, inner) =~= solved_scope(first, scope).insert(
                    name,
                    item_prim,
                ));
                lemma_items_complete(signatures, one, inner, items, i + 1, None, prim, first)
            },
            BlockItemView::Expr(_) => {
                lemma_items_complete(signatures, one, scope, items, i + 1, Some(id), prim, first)
            },
        }
    } else if last is None {
        lemma_with_complete(types, Some(PrimType::Unit), PrimType::Unit, solution);
        solution.push(PrimType::Unit)
    } else {
        solution
    }
}

pub proof fn lemma_item_complete(
    signatures: Signatures,
    types: Types,
    scope: Scope,
    item: BlockItemView,
    prim: PrimType,
    solution: Solution,
) -> (after: Solution)
    requires
        ready(signatures, types, scope),
        exact(solution, types),
        item_type(
            solved_signatures(solution, signatures),
            solved_scope(solution, scope),
            item,
        ) == Some(prim),
    ensures
        reaches(item_checked(signatures, types, scope, item), solution, after, prim),
        item_told(item) ==> item_checked(signatures, types, scope, item).1 is Ok,
    decreases item, 0int,
{
    match item {
        BlockItemView::Binding { name, expr } => {
            assert(solved_scope(solution, scope).contains_key(name) == scope.contains_key(name));
            lemma_expr_complete(signatures, types, scope, expr, prim, solution)
        },
        BlockItemView::Expr(expr) => lemma_expr_complete(
            signatures,
            types,
            scope,
            expr,
            prim,
            solution,
        ),
    }
}


pub proof fn lemma_with_fresh_complete(
    types: Types,
    count: nat,
    prims: Seq<PrimType>,
    solution: Solution,
)
    requires
        types.wf(),
        exact(solution, types),
        count <= prims.len(),
    ensures
        exact(solution + prims.take(count as int), with_fresh(types, count)),
    decreases count,
{
    if count > 0 {
        let less = (count - 1) as nat;
        lemma_with_fresh_complete(types, less, prims, solution);
        lemma_with_fresh(types, less);
        lemma_with_complete(
            with_fresh(types, less),
            None,
            prims[count - 1],
            solution + prims.take(less as int),
        );
        assert((solution + prims.take(less as int)).push(prims[count - 1]) =~= solution
            + prims.take(count as int));
    } else {
        assert(solution + prims.take(0) =~= solution);
    }
}

/// The types of a program solve what its headers say.
pub proof fn lemma_registered_complete(
    known: Known,
    functions: Seq<FunctionView>,
    i: int,
    typed: Seq<TypedFunctionView>,
    solution: Solution,
) -> (after: Solution)
    requires
        0 <= i <= functions.len(),
        typed.len() == functions.len(),
        settled(known),
        exact(solution, known.types),
        distinct(function_names(functions), i),
        forall|k: int|
            i <= k < functions.len() ==> !known.signatures.contains_key(
                #[trigger] function_names(functions)[k],
            ),
        forall|k: int|
            i <= k < functions.len() ==> header_fits(#[trigger] functions[k], typed[k]),
    ensures
        registered(known, functions, i).1 is Ok,
        exact(after, registered(known, functions, i).0.types),
        extends(after, solution),
        forall|k: int|
            i <= k < functions.len() ==> solved_function(
                after,
                registered(known, functions, i).0.signatures,
                #[trigger] functions[k],
            ) == typed[k],
    decreases functions.len() - i,
{
    if i < functions.len() {
        let names = function_names(functions);
        let function = functions[i];
        let count = function.params.len();
        let (types, signature) = declared(known.types, function);
        let next = Known { types, signatures: known.signatures.insert(function.name, signature) };
        assert(names[i] == function.name);
        lemma_declared_settled(known, function);
        lemma_with_fresh(known.types, count);
        lemma_with_fresh_complete(known.types, count, typed[i].params, solution);
        let fresh = solution + typed[i].params.take(count as int);
        lemma_with_complete(
            with_fresh(known.types, count),
            function.return_annotation,
            typed[i].ret,
            fresh,
        );
        let first = fresh.push(typed[i].ret);
        assert forall|k: int| i + 1 <= k < functions.len() implies !next.signatures.contains_key(
            #[trigger] names[k],
        ) by {
            assert(names[i] != names[k]);
        }
        let after = lemma_registered_complete(next, functions, i + 1, typed, first);
        lemma_registered_sound(next, functions, i + 1, after);
        let signatures = registered(known, functions, i).0.signatures;
        assert(next.signatures.contains_key(function.name));
        assert(signatures[function.name] == signature);
        let one = solved_function(after, signatures, function);
        assert(one.params =~= typed[i].params) by {
            assert forall|k: int| 0 <= k < count implies after[signature.params[k]]
                == typed[i].params[k] by {
                assert(first[known.types.len() + k] == typed[i].params[k]);
            }
        }
        assert(first[known.types.len() + count] == typed[i].ret);
        after
    } else {
        solution
    }
}

pub proof fn lemma_params_complete(
    scope: Scope,
    function: FunctionView,
    params: Seq<int>,
    i: int,
)
    requires
        0 <= i <= function.params.len(),
        distinct(function.params, i),
        forall|k: int|
            i <= k < function.params.len() ==> !scope.contains_key(#[trigger] function.params[k]),
    ensures
        params_scoped(scope, function, params, i) is Ok,
    decreases function.params.len() - i,
{
    if i < function.params.len() {
        let next = scope.insert(function.params[i], params[i]);
        assert forall|k: int| i + 1 <= k < function.params.len() implies !next.contains_key(
            #[trigger] function.params[k],
        ) by {
            assert(function.params[i] != function.params[k]);
        }
        lemma_params_complete(next, function, params, i + 1);
    }
}

pub proof fn lemma_function_complete(
    signatures: Signatures,
    types: Types,
    function: FunctionView,
    solution: Solution,
) -> (after: Solution)
    requires
        ready(signatures, types, Map::empty()),
        signatures.contains_key(function.name),
        signatures[function.name].params.len() == function.params.len(),
        exact(solution, types),
        function_fits(
            solved_signatures(solution, signatures),
            function,
            solved_function(solution, signatures, function),
        ),
    ensures
        passes(function_checked(signatures, types, function), solution, after),
        block_told(function.body) ==> function_checked(signatures, types, function).1 is Ok,
{
    let signature = signatures[function.name];
    assert(signature_within(signature, types));
    lemma_params_complete(Map::empty(), function, signature.params, 0);
    lemma_params_sound(Map::empty(), function, signature.params, 0, types, solution);
    assert(solved_scope(solution, Map::empty()) =~= Map::empty());
    let scope = params_scoped(Map::empty(), function, signature.params, 0)->Ok_0;
    lemma_block_keeps(signatures, types, scope, function.body);
    let after = lemma_block_complete(
        signatures,
        types,
        scope,
        function.body,
        solution[signature.ret],
        solution,
    );
    let (one, body) = block_checked(signatures, types, scope, function.body);
    if let Ok(id) = body {
        assert(types.has(signature.ret));
        assert(after[signature.ret] == solution[signature.ret]);
        lemma_unified_complete(one, signature.ret, id, after);
    }
    after
}

pub proof fn lemma_functions_complete(
    signatures: Signatures,
    types: Types,
    functions: Seq<FunctionView>,
    i: int,
    solution: Solution,
) -> (after: Solution)
    requires
        ready(signatures, types, Map::empty()),
        0 <= i <= functions.len(),
        signed(signatures, functions, i),
        exact(solution, types),
        forall|k: int|
            i <= k < functions.len() ==> function_fits(
                solved_signatures(solution, signatures),
                #[trigger] functions[k],
                solved_function(solution, signatures, functions[k]),
            ),
    ensures
        passes(functions_checked(signatures, types, functions, i), solution, after),
        (forall|k: int| i <= k < functions.len() ==> block_told((#[trigger] functions[k]).body))
            ==> functions_checked(signatures, types, functions, i).1 is Ok,
    decreases functions.len() - i,
{
    if i < functions.len() {
        let first = lemma_function_complete(signatures, types, functions[i], solution);
        lemma_function_sound(signatures, types, functions[i], solution);
        let (one, result) = function_checked(signatures, types, functions[i]);
        if result is Err {
            solution
        } else {
            lemma_ready_grown(signatures, types, Map::empty(), one);
            lemma_extended(signatures, types, Map::empty(), solution, first);
            assert forall|k: int| i + 1 <= k < functions.len() implies function_fits(
                solved_signatures(first, signatures),
                #[trigger] functions[k],
                solved_function(first, signatures, functions[k]),
            ) by {
                lemma_solved_function(signatures, functions[k], solution, first);
            }
            lemma_functions_complete(signatures, one, functions, i + 1, first)
        }
    } else {
        solution
    }
}

/// The types of a function are among those of all functions.
pub proof fn lemma_solved_function(
    signatures: Signatures,
    function: FunctionView,
    one: Solution,
    two: Solution,
)
    requires
        signatures.contains_key(function.name),
        solved_signatures(one, signatures) == solved_signatures(two, signatures),
    ensures
        solved_function(one, signatures, function) == solved_function(two, signatures, function),
{
    assert(solved_signatures(one, signatures)[function.name] == solved_signature(
        one,
        signatures[function.name],
    ));
    assert(solved_signatures(two, signatures)[function.name] == solved_signature(
        two,
        signatures[function.name],
    ));
}

pub proof fn lemma_all_resolved_complete(
    types: Types,
    ids: Seq<int>,
    i: int,
    label: Seq<char>,
    solution: Solution,
)
    requires
        0 <= i <= ids.len(),
        forall|k: int| 0 <= k < ids.len() ==> types.has(#[trigger] ids[k]),
        solves(solution, types),
    ensures
        match all_resolved(types, ids, i, label) {
            Ok(prims) => prims == Seq::new(
                (ids.len() - i) as nat,
                |k: int| solution[ids[i + k]],
            ),
            Err(message) => undetermined(message),
        },
    decreases ids.len() - i,
{
    if i < ids.len() {
        assert(types.has(ids[i]));
        lemma_all_resolved_complete(types, ids, i + 1, label, solution);
        if let Ok(prims) = all_resolved(types, ids, i, label) {
            assert(prims =~= Seq::new((ids.len() - i) as nat, |k: int| solution[ids[i + k]]));
        }
    } else {
        assert(Seq::new(0, |k: int| solution[ids[i + k]]) =~= Seq::empty());
    }
}

pub proof fn lemma_functions_resolved_complete(
    signatures: Signatures,
    types: Types,
    functions: Seq<FunctionView>,
    i: int,
    solution: Solution,
)
    requires
        0 <= i <= functions.len(),
        ready(signatures, types, Map::empty()),
        signed(signatures, functions, i),
        solves(solution, types),
    ensures
        match functions_resolved(signatures, types, functions, i) {
            Ok(typed) => typed == Seq::new(
                (functions.len() - i) as nat,
                |k: int| solved_function(solution, signatures, functions[i + k]),
            ),
            Err(message) => undetermined(message),
        },
    decreases functions.len() - i,
{
    if i < functions.len() {
        let function = functions[i];
        let signature = signatures[function.name];
        assert(signature_within(signature, types));
        assert(types.has(signature.ret));
        lemma_all_resolved_complete(
            types,
            signature.params,
            0,
            quoted("parameter in `"@, function.name, "`"@),
            solution,
        );
        lemma_functions_resolved_complete(signatures, types, functions, i + 1, solution);
        if let Ok(one) = function_resolved(signatures, types, function) {
            assert(one.params =~= solved_function(solution, signatures, function).params);
        }
        if let Ok(typed) = functions_resolved(signatures, types, functions, i) {
            assert(typed =~= Seq::new(
                (functions.len() - i) as nat,
                |k: int| solved_function(solution, signatures, functions[i + k]),
            ));
        }
    } else {
        assert(Seq::new(
            0,
            |k: int| solved_function(solution, signatures, functions[i + k]),
        ) =~= Seq::empty());
    }
}

/// Among functions of different names, the one called `main` is the only one.
pub proof fn lemma_one_main(functions: Seq<FunctionView>, i: int, main: int)
    requires
        0 <= i <= functions.len(),
        distinct(function_names(functions), 0),
        0 <= main < functions.len(),
        functions[main].name == "main"@,
    ensures
        main_count(functions, i) == if i <= main {
            1nat
        } else {
            0nat
        },
        i <= main ==> main_index(functions, i) == main,
    decreases functions.len() - i,
{
    if i < functions.len() {
        lemma_one_main(functions, i + 1, main);
        let names = function_names(functions);
        assert(names[i] == functions[i].name);
        assert(names[main] == functions[main].name);
    }
}

/// Completeness: of a program that is well typed under some types, the checker finds those types,
/// or reports that it could not infer one.
pub proof fn law_complete(program: ProgramView, typed: TypedProgramView)
    requires
        well_typed(program, typed),
    ensures
        match program_checked(program) {
            Ok(found) => found == typed,
            Err(message) => undetermined(message),
        },
{
    let functions = program.functions;
    let names = function_names(functions);
    let empty = Known { types: Store::empty(), signatures: Map::empty() };
    let start = lemma_registered_complete(empty, functions, 0, typed.functions, Seq::empty());
    let known = registered(empty, functions, 0).0;
    let signatures = known.signatures;
    lemma_registered_sound(empty, functions, 0, start);
    assert(signed(signatures, functions, 0)) by {
        assert forall|k: int| 0 <= k < functions.len() implies {
            &&& signatures.contains_key((#[trigger] functions[k]).name)
            &&& signatures[functions[k].name].params.len() == functions[k].params.len()
        } by {
            assert(names[k] == functions[k].name);
        }
    }
    let main = choose|i: int|
        0 <= i < functions.len() && (#[trigger] functions[i]).name == "main"@
            && functions[i].params.len() == 0;
    lemma_one_main(functions, 0, main);
    assert(typed_names(typed.functions) =~= names) by {
        assert forall|k: int| 0 <= k < functions.len() implies typed_names(typed.functions)[k]
            == names[k] by {
            assert(header_fits(functions[k], typed.functions[k]));
        }
    }
    lemma_arrows_of(Map::empty(), typed.functions, 0);
    let arrows = arrows_of(Map::empty(), typed.functions, 0);
    assert(arrows =~= solved_signatures(start, signatures)) by {
        assert forall|name: Seq<char>| arrows.contains_key(name)
            == signatures.contains_key(name) by {}
        assert forall|name: Seq<char>| signatures.contains_key(name) implies #[trigger] arrows[name]
            == solved_signature(start, signatures[name]) by {
            let k = choose|k: int| 0 <= k < functions.len() && #[trigger] names[k] == name;
            assert(names[k] == name);
            assert(solved_function(start, signatures, functions[k]) == typed.functions[k]);
        }
    }
    assert forall|k: int| 0 <= k < functions.len() implies function_fits(
        solved_signatures(start, signatures),
        #[trigger] functions[k],
        solved_function(start, signatures, functions[k]),
    ) by {
        assert(solved_function(start, signatures, functions[k]) == typed.functions[k]);
    }
    let end = lemma_functions_complete(signatures, known.types, functions, 0, start);
    lemma_functions_sound(signatures, known.types, functions, 0, end);
    let (types, result) = functions_checked(signatures, known.types, functions, 0);
    if result is Ok {
        lemma_ready_grown(signatures, known.types, Map::empty(), types);
        lemma_functions_resolved_complete(signatures, types, functions, 0, end);
        lemma_extended(signatures, known.types, Map::empty(), start, end);
        if let Ok(found) = functions_resolved(signatures, types, functions, 0) {
            assert(found =~= typed.functions) by {
                assert forall|k: int| 0 <= k < functions.len() implies found[k]
                    == typed.functions[k] by {
                    lemma_solved_function(signatures, functions[k], start, end);
                    assert(solved_function(start, signatures, functions[k]) == typed.functions[k]);
                }
            }
        }
    }
}

/// A program that the checker accepts is well typed under the found types only.
pub proof fn law_unique(program: ProgramView, found: TypedProgramView, other: TypedProgramView)
    requires
        program_checked(program) == Ok::<TypedProgramView, Seq<char>>(found),
    ensures
        well_typed(program, other) <==> other == found,
{
    law_sound(program, found);
    if well_typed(program, other) {
        law_complete(program, other);
    }
}

/// A program that the checker rejects, but not for want of a type, is well typed under no types.
pub proof fn law_rejects(program: ProgramView, message: Seq<char>, typed: TypedProgramView)
    requires
        program_checked(program) == Err::<TypedProgramView, Seq<char>>(message),
        !undetermined(message),
    ensures
        !well_typed(program, typed),
{
    if well_typed(program, typed) {
        law_complete(program, typed);
    }
}

/// The types of the functions of a program under a solution.
pub open spec fn solved_program(
    solution: Solution,
    signatures: Signatures,
    program: ProgramView,
) -> TypedProgramView {
    TypedProgramView {
        functions: Seq::new(
            program.functions.len(),
            |k: int| solved_function(solution, signatures, program.functions[k]),
        ),
    }
}

/// A program whose bodies pass is well typed under each solution.
proof fn lemma_solution_typed(program: ProgramView, solution: Solution)
    requires
        ({
            let empty = Known { types: Store::empty(), signatures: Map::empty() };
            let (known, outcome) = registered(empty, program.functions, 0);
            let (types, result) = functions_checked(
                known.signatures,
                known.types,
                program.functions,
                0,
            );
            &&& outcome is Ok
            &&& main_checked(program.functions) is Ok
            &&& result is Ok
            &&& solves(solution, types)
        }),
    ensures
        well_typed(
            program,
            solved_program(
                solution,
                registered(
                    Known { types: Store::empty(), signatures: Map::empty() },
                    program.functions,
                    0,
                ).0.signatures,
                program,
            ),
        ),
{
    let functions = program.functions;
    let names = function_names(functions);
    let empty = Known { types: Store::empty(), signatures: Map::empty() };
    let known = registered(empty, functions, 0).0;
    let signatures = known.signatures;
    let typed = solved_program(solution, signatures, program);
    lemma_registered_sound(empty, functions, 0, solution);
    assert(signed(signatures, functions, 0)) by {
        assert forall|k: int| 0 <= k < functions.len() implies {
            &&& signatures.contains_key((#[trigger] functions[k]).name)
            &&& signatures[functions[k].name].params.len() == functions[k].params.len()
        } by {
            assert(names[k] == functions[k].name);
        }
    }
    lemma_functions_sound(signatures, known.types, functions, 0, solution);
    assert(typed_names(typed.functions) =~= names);
    lemma_arrows_of(Map::empty(), typed.functions, 0);
    let arrows = arrows_of(Map::empty(), typed.functions, 0);
    assert(arrows =~= solved_signatures(solution, signatures)) by {
        assert forall|name: Seq<char>| arrows.contains_key(name)
            == signatures.contains_key(name) by {}
        assert forall|name: Seq<char>| signatures.contains_key(name) implies #[trigger] arrows[name]
            == solved_signature(solution, signatures[name]) by {
            let k = choose|k: int| 0 <= k < functions.len() && #[trigger] names[k] == name;
            assert(names[k] == name);
            assert(typed.functions[k] == solved_function(solution, signatures, functions[k]));
        }
    }
    lemma_main_index(functions, 0);
}

/// Where types are not told, a slot of one of the functions has none.
proof fn lemma_slot_open(signatures: Signatures, types: Types, functions: Seq<FunctionView>, i: int) -> (
    open: (int, int))
    requires
        0 <= i <= functions.len(),
        ready(signatures, types, Map::empty()),
        signed(signatures, functions, i),
        functions_resolved(signatures, types, functions, i) is Err,
    ensures
        i <= open.0 < functions.len(),
        -1 <= open.1 < functions[open.0].params.len(),
        ({
            let signature = signatures[functions[open.0].name];
            let id = if open.1 == -1 {
                signature.ret
            } else {
                signature.params[open.1]
            };
            types.has(id) && types.value_of(id) is None
        }),
    decreases functions.len() - i,
{
    let function = functions[i];
    let signature = signatures[function.name];
    let label = quoted("parameter in `"@, function.name, "`"@);
    assert(signature_within(signature, types));
    if all_resolved(types, signature.params, 0, label) is Err {
        let j = lemma_param_open(types, signature.params, 0, label);
        assert(types.has(signature.params[j]));
        (i, j)
    } else if types.value_of(signature.ret) is None {
        assert(types.has(signature.ret));
        (i, -1)
    } else {
        lemma_slot_open(signatures, types, functions, i + 1)
    }
}

proof fn lemma_param_open(types: Types, ids: Seq<int>, i: int, label: Seq<char>) -> (open: int)
    requires
        0 <= i <= ids.len(),
        all_resolved(types, ids, i, label) is Err,
    ensures
        i <= open < ids.len(),
        types.value_of(ids[open]) is None,
    decreases ids.len() - i,
{
    if types.value_of(ids[i]) is None {
        i
    } else {
        lemma_param_open(types, ids, i + 1, label)
    }
}

/// A program that is well typed under one assignment of types only is accepted with those types,
/// where each match has a pattern that tells the type of its scrutinee.
pub proof fn law_determined(program: ProgramView, typed: TypedProgramView)
    requires
        well_typed(program, typed),
        forall|other: TypedProgramView| #[trigger] well_typed(program, other) ==> other == typed,
        forall|k: int|
            0 <= k < program.functions.len() ==> block_told((#[trigger] program.functions[k]).body),
    ensures
        program_checked(program) == Ok::<TypedProgramView, Seq<char>>(typed),
{
    let functions = program.functions;
    let names = function_names(functions);
    let empty = Known { types: Store::empty(), signatures: Map::empty() };
    let start = lemma_registered_complete(empty, functions, 0, typed.functions, Seq::empty());
    let known = registered(empty, functions, 0).0;
    let signatures = known.signatures;
    lemma_registered_sound(empty, functions, 0, start);
    assert(signed(signatures, functions, 0)) by {
        assert forall|k: int| 0 <= k < functions.len() implies {
            &&& signatures.contains_key((#[trigger] functions[k]).name)
            &&& signatures[functions[k].name].params.len() == functions[k].params.len()
        } by {
            assert(names[k] == functions[k].name);
        }
    }
    let main = choose|i: int|
        0 <= i < functions.len() && (#[trigger] functions[i]).name == "main"@
            && functions[i].params.len() == 0;
    lemma_one_main(functions, 0, main);
    assert(typed_names(typed.functions) =~= names) by {
        assert forall|k: int| 0 <= k < functions.len() implies typed_names(typed.functions)[k]
            == names[k] by {
            assert(header_fits(functions[k], typed.functions[k]));
        }
    }
    lemma_arrows_of(Map::empty(), typed.functions, 0);
    let arrows = arrows_of(Map::empty(), typed.functions, 0);
    assert(arrows =~= solved_signatures(start, signatures)) by {
        assert forall|name: Seq<char>| arrows.contains_key(name)
            == signatures.contains_key(name) by {}
        assert forall|name: Seq<char>| signatures.contains_key(name) implies #[trigger] arrows[name]
            == solved_signature(start, signatures[name]) by {
            let k = choose|k: int| 0 <= k < functions.len() && #[trigger] names[k] == name;
            assert(names[k] == name);
            assert(solved_function(start, signatures, functions[k]) == typed.functions[k]);
        }
    }
    assert forall|k: int| 0 <= k < functions.len() implies function_fits(
        solved_signatures(start, signatures),
        #[trigger] functions[k],
        solved_function(start, signatures, functions[k]),
    ) by {
        assert(solved_function(start, signatures, functions[k]) == typed.functions[k]);
    }
    let end = lemma_functions_complete(signatures, known.types, functions, 0, start);
    let (types, result) = functions_checked(signatures, known.types, functions, 0);
    assert(result is Ok);
    lemma_functions_sound(signatures, known.types, functions, 0, end);
    lemma_ready_grown(signatures, known.types, Map::empty(), types);
    law_complete(program, typed);
    if functions_resolved(signatures, types, functions, 0) is Err {
        let (k, j) = lemma_slot_open(signatures, types, functions, 0);
        let signature = signatures[functions[k].name];
        let id = if j == -1 {
            signature.ret
        } else {
            signature.params[j]
        };
        let one = chosen(types, id, PrimType::Unit);
        let two = chosen(types, id, PrimType::Bool);
        lemma_chosen(types, id, PrimType::Unit);
        lemma_chosen(types, id, PrimType::Bool);
        lemma_solution_typed(program, one);
        lemma_solution_typed(program, two);
        let a = solved_program(one, signatures, program);
        let b = solved_program(two, signatures, program);
        assert(a == b);
        assert(a.functions[k] == solved_function(one, signatures, functions[k]));
        assert(b.functions[k] == solved_function(two, signatures, functions[k]));
        if j == -1 {
            assert(a.functions[k].ret != b.functions[k].ret);
        } else {
            assert(a.functions[k].params[j] == one[id]);
            assert(b.functions[k].params[j] == two[id]);
        }
        assert(false);
    }
}

} // verus!
