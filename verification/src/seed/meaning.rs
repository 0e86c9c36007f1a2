//! Emitted expressions have the values of the expressions that they are emitted for.
use vstd::prelude::*;

use crate::seed::ast::{
    BinaryOp, BlockItemView, BlockView, ExprView, FunctionView, MatchArmView, ProgramView,
};
use crate::seed::emit::name_text;
use crate::seed::evaluation::{
    arm_value, block_value, first_match, function_named, item_value, named, operated, run, value_of,
    values_of, Names,
};
use crate::seed::lowering::{
    lowered, lowered_arm, lowered_arms, lowered_block, lowered_item, lowered_items, lowered_list,
};
use crate::seed::matching::Value;
use crate::seed::pieces::{
    all_emittable, arm_emittable, arms_emittable, block_emittable, emittable, item_emittable,
    items_emittable, method_word,
};
use crate::seed::rust::{
    method_value, rust_arm_value, rust_item_value, rust_named, rust_run, rust_value, rust_values,
    Rust, RustArm, RustFunction, RustItem,
};

verus! {

/// The function is the Rust one for another.
pub open spec fn stands_for(rust: RustFunction, function: FunctionView) -> bool {
    &&& rust.name == name_text(function.name)
    &&& rust.params == function.params
    &&& if function.name == "main"@ {
        rust.exit is Some && rust.body == lowered_block(function.body)
    } else {
        rust.exit is None && rust.body == Rust::Block(
            seq![RustItem::Tail(lowered_block(function.body))],
        )
    }
}

/// The functions are the Rust ones for those of a program, and no two have the same name.
pub open spec fn stand_for(functions: Seq<RustFunction>, p: ProgramView) -> bool {
    &&& functions.len() == p.functions.len()
    &&& forall|k: int|
        0 <= k < functions.len() ==> stands_for(#[trigger] functions[k], p.functions[k])
    &&& forall|k: int|
        0 <= k < p.functions.len() ==> block_emittable(p, (#[trigger] p.functions[k]).body)
    &&& forall|j: int, k: int|
        0 <= j < k < functions.len() ==> (#[trigger] functions[j]).name != (
        #[trigger] functions[k]).name
}

/// A function is found under its Rust name where it is found under its name.
pub proof fn lemma_found(functions: Seq<RustFunction>, p: ProgramView, name: Seq<char>)
    requires
        stand_for(functions, p),
        exists|k: int| 0 <= k < p.functions.len() && (#[trigger] p.functions[k]).name == name,
    ensures
        rust_named(functions, name_text(name)) == function_named(p.functions, name),
        function_named(p.functions, name) matches Some(k) && 0 <= k < p.functions.len()
            && p.functions[k].name == name && stands_for(functions[k], p.functions[k]),
{
    let k = function_named(p.functions, name)->Some_0;
    assert(stands_for(functions[k], p.functions[k]));
    assert(functions[k].name == name_text(name));
    let j = rust_named(functions, name_text(name))->Some_0;
    if j < k {
        assert(functions[j].name != functions[k].name);
    } else if k < j {
        assert(functions[k].name != functions[j].name);
    }
}

/// The body of a Rust function has the value of its one block.
pub proof fn lemma_body(functions: Seq<RustFunction>, locals: Names, block: Rust, depth: nat)
    ensures
        rust_value(functions, locals, Rust::Block(seq![RustItem::Tail(block)]), depth)
            == rust_value(functions, locals, block, depth),
{
    let item = RustItem::Tail(block);
    let items = seq![item];
    assert(items[0] == item);
    assert(rust_item_value(functions, locals, item, depth) == rust_value(
        functions,
        locals,
        block,
        depth,
    ));
    assert(rust_run(functions, locals, items, 0, depth) == rust_item_value(
        functions,
        locals,
        item,
        depth,
    ));
}

proof fn lemma_arithmetic(op: BinaryOp, left: Value, right: Value)
    requires
        op != BinaryOp::Eq,
        op != BinaryOp::Lt,
    ensures
        method_value(method_word(op), left, seq![right]) == operated(op, left, right),
{
    reveal_strlit("wrapping_add");
    reveal_strlit("wrapping_sub");
    reveal_strlit("wrapping_mul");
    assert("wrapping_add"@[9] == 'a' && "wrapping_sub"@[9] == 's' && "wrapping_mul"@[9] == 'm');
    assert(seq![right][0] == right);
}

pub proof fn lemma_value(
    functions: Seq<RustFunction>,
    p: ProgramView,
    locals: Names,
    e: ExprView,
    depth: nat,
)
    requires
        stand_for(functions, p),
        emittable(p, e),
    ensures
        rust_value(functions, locals, lowered(e), depth) == value_of(p, locals, e, depth),
    decreases depth, e, 0int,
{
    match e {
        ExprView::Call { name, args } => {
            lemma_values(functions, p, locals, args, 0, depth);
            lemma_found(functions, p, name);
            let k = function_named(p.functions, name)->Some_0;
            let function = p.functions[k];
            if let Some(values) = values_of(p, locals, args, 0, depth) {
                if depth > 0 && function.params.len() == values.len() {
                    let inner = named(function.params, values);
                    lemma_body(functions, inner, lowered_block(function.body), (depth - 1) as nat);
                    lemma_block_value(functions, p, inner, function.body, (depth - 1) as nat);
                }
            }
        },
        ExprView::Binary { op, left, right } => {
            lemma_value(functions, p, locals, *left, depth);
            lemma_value(functions, p, locals, *right, depth);
            if op != BinaryOp::Eq && op != BinaryOp::Lt {
                let args = seq![lowered(*right)];
                assert(args[0] == lowered(*right));
                assert(rust_values(functions, locals, args, 1, depth) == Some(
                    Seq::<Value>::empty(),
                ));
                if let Some(b) = value_of(p, locals, *right, depth) {
                    assert(seq![b] + Seq::<Value>::empty() =~= seq![b]);
                    assert(rust_values(functions, locals, args, 0, depth) == Some(seq![b]));
                    if let Some(a) = value_of(p, locals, *left, depth) {
                        lemma_arithmetic(op, a, b);
                    }
                } else {
                    assert(rust_values(functions, locals, args, 0, depth) is None);
                }
            }
        },
        ExprView::Match { scrutinee, arms } => {
            lemma_value(functions, p, locals, *scrutinee, depth);
            if let Some(value) = value_of(p, locals, *scrutinee, depth) {
                let rust = lowered_arms(arms);
                assert(rust.map_values(|arm: RustArm| arm.pattern) =~= arms.map_values(
                    |arm: MatchArmView| arm.pattern,
                ));
                let k = first_match(
                    arms.map_values(|arm: MatchArmView| arm.pattern),
                    value,
                );
                if 0 <= k < arms.len() {
                    lemma_each_arm(p, arms, 0, k);
                    lemma_arm_value(functions, p, locals, arms[k], depth);
                    assert(rust[k] == lowered_arm(arms[k]));
                }
            }
        },
        ExprView::Block(block) => {
            lemma_block_value(functions, p, locals, block, depth);
            assert(lowered(e) == lowered_block(block));
        },
        _ => {},
    }
}

proof fn lemma_each_arm(p: ProgramView, arms: Seq<MatchArmView>, i: int, k: int)
    requires
        0 <= i <= k < arms.len(),
        arms_emittable(p, arms, i),
    ensures
        arm_emittable(p, arms[k]),
    decreases k - i,
{
    if i < k {
        lemma_each_arm(p, arms, i + 1, k);
    }
}

proof fn lemma_arm_value(
    functions: Seq<RustFunction>,
    p: ProgramView,
    locals: Names,
    arm: MatchArmView,
    depth: nat,
)
    requires
        stand_for(functions, p),
        arm_emittable(p, arm),
    ensures
        rust_arm_value(functions, locals, lowered_arm(arm), depth) == arm_value(
            p,
            locals,
            arm,
            depth,
        ),
    decreases depth, arm, 0int,
{
    lemma_value(functions, p, locals, arm.expr, depth);
}

proof fn lemma_values(
    functions: Seq<RustFunction>,
    p: ProgramView,
    locals: Names,
    args: Seq<ExprView>,
    i: int,
    depth: nat,
)
    requires
        stand_for(functions, p),
        0 <= i <= args.len(),
        all_emittable(p, args, i),
    ensures
        rust_values(functions, locals, lowered_list(args), i, depth) == values_of(
            p,
            locals,
            args,
            i,
            depth,
        ),
    decreases depth, args, args.len() - i,
{
    if i < args.len() {
        lemma_value(functions, p, locals, args[i], depth);
        assert(lowered_list(args)[i] == lowered(args[i]));
        lemma_values(functions, p, locals, args, i + 1, depth);
    }
}

pub proof fn lemma_block_value(
    functions: Seq<RustFunction>,
    p: ProgramView,
    locals: Names,
    block: BlockView,
    depth: nat,
)
    requires
        stand_for(functions, p),
        block_emittable(p, block),
    ensures
        rust_value(functions, locals, lowered_block(block), depth) == block_value(
            p,
            locals,
            block,
            depth,
        ),
    decreases depth, block, 0int,
{
    let rust = lowered_items(block.items);
    if block.items.len() > 0 {
        lemma_run(functions, p, locals, block.items, 0, Value::Unit, depth);
    } else {
        assert(rust.len() == 0);
    }
    assert(rust_value(functions, locals, Rust::Block(rust), depth) == rust_run(
        functions,
        locals,
        rust,
        0,
        depth,
    ));
}

proof fn lemma_run(
    functions: Seq<RustFunction>,
    p: ProgramView,
    locals: Names,
    items: Seq<BlockItemView>,
    i: int,
    last: Value,
    depth: nat,
)
    requires
        stand_for(functions, p),
        0 <= i < items.len(),
        items_emittable(p, items, i),
    ensures
        rust_run(functions, locals, lowered_items(items), i, depth) == run(
            p,
            locals,
            items,
            i,
            last,
            depth,
        ),
    decreases depth, items, items.len() - i,
{
    let rust = lowered_items(items);
    let is_last = i + 1 == items.len();
    lemma_item_value(functions, p, locals, items[i], is_last, depth);
    assert(rust[i] == lowered_item(items[i], is_last));
    assert(item_emittable(p, items[i]));
    if let Some(value) = item_value(p, locals, items[i], depth) {
        match items[i] {
            BlockItemView::Binding { name, expr } => {
                let inner = locals.insert(name, value);
                if is_last {
                    assert(rust[i + 1] == RustItem::Tail(Rust::Unit));
                    assert(rust_item_value(functions, inner, rust[i + 1], depth) == rust_value(
                        functions,
                        inner,
                        Rust::Unit,
                        depth,
                    ));
                    assert(rust_run(functions, inner, rust, i + 1, depth) == Some(Value::Unit));
                    assert(run(p, inner, items, i + 1, Value::Unit, depth) == Some(Value::Unit));
                } else {
                    lemma_run(functions, p, inner, items, i + 1, Value::Unit, depth);
                }
            },
            BlockItemView::Expr(expr) => {
                if is_last {
                    assert(run(p, locals, items, i + 1, value, depth) == Some(value));
                } else {
                    lemma_run(functions, p, locals, items, i + 1, value, depth);
                }
            },
        }
    }
}

proof fn lemma_item_value(
    functions: Seq<RustFunction>,
    p: ProgramView,
    locals: Names,
    item: BlockItemView,
    is_last: bool,
    depth: nat,
)
    requires
        stand_for(functions, p),
        item_emittable(p, item),
    ensures
        rust_item_value(functions, locals, lowered_item(item, is_last), depth) == item_value(
            p,
            locals,
            item,
            depth,
        ),
    decreases depth, item, 0int,
{
    match item {
        BlockItemView::Binding { name, expr } => lemma_value(functions, p, locals, expr, depth),
        BlockItemView::Expr(expr) => lemma_value(functions, p, locals, expr, depth),
    }
}

} // verus!
