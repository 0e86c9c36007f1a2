//! Solutions of what the inference has found: an assignment of types to slots under which slots
//! of one class have one type, and slots of a known type have that type.
use vstd::prelude::*;

use crate::seed::ast::{BinaryOp, BlockItemView, BlockView, ExprView, MatchArmView, PrimType};
use crate::seed::inference::{
    args_checked, arm_checked, arms_checked, block_checked, constrained, expr_checked, item_checked,
    items_checked, known, operation, pattern_prim, patterns_checked, signature_within,
    signatures_within, unified, Checked, Scope, Signature, Signatures, Types,
};
use crate::seed::typing::{Arrow, Arrows, Locals};
use crate::slots::scope_within;

verus! {

/// An assignment of types to slots.
pub type Solution = Seq<PrimType>;

/// The assignment is a solution.
pub open spec fn solves(solution: Solution, types: Types) -> bool {
    &&& solution.len() >= types.len()
    &&& forall|i: int| #[trigger]
        types.has(i) ==> {
            &&& solution[i] == solution[types.roots[i]]
            &&& types.value_of(i) matches Some(prim) ==> solution[i] == prim
        }
}

/// `longer` gives the slots of `shorter` the same types.
pub open spec fn extends(longer: Solution, shorter: Solution) -> bool {
    &&& longer.len() >= shorter.len()
    &&& forall|i: int| 0 <= i < shorter.len() ==> #[trigger] longer[i] == shorter[i]
}

/// The types of a function under a solution.
pub open spec fn solved_signature(solution: Solution, signature: Signature) -> Arrow {
    Arrow {
        params: Seq::new(signature.params.len(), |i: int| solution[signature.params[i]]),
        ret: solution[signature.ret],
    }
}

pub open spec fn solved_signatures(solution: Solution, signatures: Signatures) -> Arrows {
    signatures.map_values(|signature: Signature| solved_signature(solution, signature))
}

/// The types of the names in scope under a solution.
pub open spec fn solved_scope(solution: Solution, scope: Scope) -> Locals {
    scope.map_values(|id: int| solution[id])
}

/// The store of a step is well formed, with no slot lost.
pub open spec fn grown(after: Types, before: Types) -> bool {
    &&& after.wf()
    &&& after.len() >= before.len()
}

/// The step loses no slot, and returns one of the slots.
pub open spec fn keeps(step: Checked<int>, before: Types) -> bool {
    &&& grown(step.0, before)
    &&& step.1 matches Ok(id) ==> step.0.has(id)
}

/// What a step starts from: a well-formed store with the slots of all names.
pub open spec fn ready(signatures: Signatures, types: Types, scope: Scope) -> bool {
    &&& types.wf()
    &&& signatures_within(signatures, types)
    &&& scope_within(scope, types)
}

pub proof fn lemma_ready_grown(signatures: Signatures, types: Types, scope: Scope, after: Types)
    requires
        ready(signatures, types, scope),
        grown(after, types),
    ensures
        ready(signatures, after, scope),
{
    assert forall|name: Seq<char>| #[trigger] signatures.contains_key(name) implies signature_within(
        signatures[name],
        after,
    ) by {
        assert(signature_within(signatures[name], types));
    }
    assert forall|name: Seq<char>| #[trigger] scope.contains_key(name) implies after.has(
        scope[name],
    ) by {
        assert(types.has(scope[name]));
    }
}

pub proof fn lemma_known_keeps(types: Types, prim: PrimType)
    requires
        types.wf(),
    ensures
        keeps(known(types, prim), types),
{
    let after = types.with(Some(prim));
    assert forall|i: int| #[trigger] after.has(i) implies after.has(after.roots[i])
        && after.roots[after.roots[i]] == after.roots[i] by {
        if i < types.len() {
            assert(types.has(i));
        }
    }
}

pub proof fn lemma_unified_keeps(types: Types, a: int, b: int)
    requires
        types.wf(),
        types.has(a),
        types.has(b),
    ensures
        grown(unified(types, a, b).0, types),
{
    let after = unified(types, a, b).0;
    assert forall|i: int| #[trigger] after.has(i) implies after.has(after.roots[i])
        && after.roots[after.roots[i]] == after.roots[i] by {
        assert(types.has(i));
        assert(types.has(types.roots[i]));
    }
}

pub proof fn lemma_constrained_keeps(types: Types, id: int, prim: PrimType)
    requires
        types.wf(),
        types.has(id),
    ensures
        grown(constrained(types, id, prim).0, types),
{
    lemma_known_keeps(types, prim);
    lemma_unified_keeps(types.with(Some(prim)), id, types.len());
}

pub proof fn lemma_operation_keeps(
    types: Types,
    op: BinaryOp,
    left: int,
    right: int,
)
    requires
        types.wf(),
        types.has(left),
        types.has(right),
    ensures
        keeps(operation(types, op, left, right), types),
{
    lemma_unified_keeps(types, left, right);
    lemma_known_keeps(unified(types, left, right).0, PrimType::Bool);
    let (one, _) = constrained(types, left, PrimType::I32);
    lemma_constrained_keeps(types, left, PrimType::I32);
    let (two, _) = constrained(one, right, PrimType::I32);
    lemma_constrained_keeps(one, right, PrimType::I32);
    lemma_known_keeps(two, PrimType::I32);
    lemma_known_keeps(two, PrimType::Bool);
}

pub proof fn lemma_patterns_keep(types: Types, scrutinee: int, arms: Seq<MatchArmView>, i: int)
    requires
        types.wf(),
        types.has(scrutinee),
    ensures
        grown(patterns_checked(types, scrutinee, arms, i).0, types),
    decreases arms.len() - i,
{
    if i < arms.len() {
        match pattern_prim(arms[i].pattern) {
            None => lemma_patterns_keep(types, scrutinee, arms, i + 1),
            Some(prim) => {
                lemma_constrained_keeps(types, scrutinee, prim);
                lemma_patterns_keep(
                    constrained(types, scrutinee, prim).0,
                    scrutinee,
                    arms,
                    i + 1,
                );
            },
        }
    }
}

pub proof fn lemma_expr_keeps(signatures: Signatures, types: Types, scope: Scope, e: ExprView)
    requires
        ready(signatures, types, scope),
    ensures
        keeps(expr_checked(signatures, types, scope, e), types),
    decreases e, 0int,
{
    match e {
        ExprView::Int(_) => lemma_known_keeps(types, PrimType::I32),
        ExprView::Bool(_) => lemma_known_keeps(types, PrimType::Bool),
        ExprView::Unit => lemma_known_keeps(types, PrimType::Unit),
        ExprView::Var(name) => {},
        ExprView::Call { name, args } => {
            if signatures.contains_key(name) && args.len() == signatures[name].params.len() {
                assert(signature_within(signatures[name], types));
                lemma_args_keep(signatures, types, scope, args, signatures[name].params, 0);
            }
        },
        ExprView::MethodCall { .. } => {},
        ExprView::Binary { op, left, right } => {
            lemma_expr_keeps(signatures, types, scope, *left);
            let (one, left) = expr_checked(signatures, types, scope, *left);
            lemma_ready_grown(signatures, types, scope, one);
            lemma_expr_keeps(signatures, one, scope, *right);
            let (two, right) = expr_checked(signatures, one, scope, *right);
            if left is Ok && right is Ok {
                lemma_operation_keeps(two, op, left->Ok_0, right->Ok_0);
            }
        },
        ExprView::Match { scrutinee, arms } => {
            lemma_expr_keeps(signatures, types, scope, *scrutinee);
            let (one, scrutinee) = expr_checked(signatures, types, scope, *scrutinee);
            lemma_ready_grown(signatures, types, scope, one);
            if scrutinee is Ok && arms.len() > 0 {
                lemma_patterns_keep(one, scrutinee->Ok_0, arms, 0);
                let (two, _) = patterns_checked(one, scrutinee->Ok_0, arms, 0);
                lemma_ready_grown(signatures, one, scope, two);
                lemma_arms_keep(signatures, two, scope, arms, 0, None);
            }
        },
        ExprView::Block(block) => lemma_block_keeps(signatures, types, scope, block),
    }
}

pub proof fn lemma_args_keep(
    signatures: Signatures,
    types: Types,
    scope: Scope,
    args: Seq<ExprView>,
    params: Seq<int>,
    i: int,
)
    requires
        ready(signatures, types, scope),
        0 <= i,
        args.len() == params.len(),
        forall|k: int| 0 <= k < params.len() ==> types.has(#[trigger] params[k]),
    ensures
        grown(args_checked(signatures, types, scope, args, params, i).0, types),
    decreases args, args.len() - i,
{
    if i < args.len() {
        lemma_expr_keeps(signatures, types, scope, args[i]);
        let (one, arg) = expr_checked(signatures, types, scope, args[i]);
        if arg is Ok {
            lemma_unified_keeps(one, arg->Ok_0, params[i]);
            let (two, _) = unified(one, arg->Ok_0, params[i]);
            lemma_ready_grown(signatures, types, scope, two);
            lemma_args_keep(signatures, two, scope, args, params, i + 1);
        }
    }
}

pub proof fn lemma_arm_keeps(signatures: Signatures, types: Types, scope: Scope, arm: MatchArmView)
    requires
        ready(signatures, types, scope),
    ensures
        keeps(arm_checked(signatures, types, scope, arm), types),
    decreases arm, 0int,
{
    lemma_expr_keeps(signatures, types, scope, arm.expr);
}

pub proof fn lemma_arms_keep(
    signatures: Signatures,
    types: Types,
    scope: Scope,
    arms: Seq<MatchArmView>,
    i: int,
    result: Option<int>,
)
    requires
        ready(signatures, types, scope),
        0 <= i,
        result matches Some(id) ==> types.has(id),
        result is None ==> i < arms.len(),
    ensures
        keeps(arms_checked(signatures, types, scope, arms, i, result), types),
    decreases arms, arms.len() - i,
{
    if i < arms.len() {
        lemma_arm_keeps(signatures, types, scope, arms[i]);
        let (one, arm) = arm_checked(signatures, types, scope, arms[i]);
        if arm is Ok {
            lemma_ready_grown(signatures, types, scope, one);
            match result {
                None => lemma_arms_keep(signatures, one, scope, arms, i + 1, Some(arm->Ok_0)),
                Some(existing) => {
                    lemma_unified_keeps(one, existing, arm->Ok_0);
                    let (two, _) = unified(one, existing, arm->Ok_0);
                    lemma_ready_grown(signatures, one, scope, two);
                    lemma_arms_keep(signatures, two, scope, arms, i + 1, result);
                },
            }
        }
    }
}

pub proof fn lemma_block_keeps(signatures: Signatures, types: Types, scope: Scope, block: BlockView)
    requires
        ready(signatures, types, scope),
    ensures
        keeps(block_checked(signatures, types, scope, block), types),
    decreases block, 0int,
{
    lemma_items_keep(signatures, types, scope, block.items, 0, None);
}

pub proof fn lemma_items_keep(
    signatures: Signatures,
    types: Types,
    scope: Scope,
    items: Seq<BlockItemView>,
    i: int,
    last: Option<int>,
)
    requires
        ready(signatures, types, scope),
        0 <= i,
        last matches Some(id) ==> types.has(id),
    ensures
        keeps(items_checked(signatures, types, scope, items, i, last), types),
    decreases items, items.len() - i,
{
    if i < items.len() {
        lemma_item_keeps(signatures, types, scope, items[i]);
        let (one, item) = item_checked(signatures, types, scope, items[i]);
        if item is Ok {
            lemma_ready_grown(signatures, types, scope, one);
            match items[i] {
                BlockItemView::Binding { name, .. } => {
                    lemma_items_keep(
                        signatures,
                        one,
                        scope.insert(name, item->Ok_0),
                        items,
                        i + 1,
                        None,
                    );
                },
                BlockItemView::Expr(_) => {
                    lemma_items_keep(signatures, one, scope, items, i + 1, Some(item->Ok_0));
                },
            }
        }
    } else if last is None {
        lemma_known_keeps(types, PrimType::Unit);
    }
}

pub proof fn lemma_item_keeps(
    signatures: Signatures,
    types: Types,
    scope: Scope,
    item: BlockItemView,
)
    requires
        ready(signatures, types, scope),
    ensures
        keeps(item_checked(signatures, types, scope, item), types),
    decreases item, 0int,
{
    match item {
        BlockItemView::Binding { name, expr } => lemma_expr_keeps(signatures, types, scope, expr),
        BlockItemView::Expr(expr) => lemma_expr_keeps(signatures, types, scope, expr),
    }
}

} // verus!
