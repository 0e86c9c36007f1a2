//! What programs of the seed language mean.
use vstd::prelude::*;

use crate::seed::ast::{
    BinaryOp, BlockItemView, BlockView, ExprView, FunctionView, MatchArmView, Pattern, ProgramView,
};
use crate::seed::matching::{matches_value, Value};

verus! {

/// The values of the names in scope.
pub type Names = Map<Seq<char>, Value>;

/// The number of 32 bits that a number becomes when it wraps around.
pub open spec fn wrapped(n: int) -> i32 {
    ((n + 0x8000_0000) % 0x1_0000_0000 - 0x8000_0000) as i32
}

/// Each name with the value at its position.
pub open spec fn named(names: Seq<Seq<char>>, values: Seq<Value>) -> Names
    decreases names.len(),
{
    if names.len() == 0 {
        Map::empty()
    } else {
        named(names.drop_last(), values).insert(names.last(), values[names.len() - 1])
    }
}

/// The position of the first pattern that matches the value, or the number of patterns.
pub open spec fn first_match(patterns: Seq<Pattern>, value: Value) -> int
    decreases patterns.len(),
{
    if patterns.len() == 0 || matches_value(patterns[0], value) {
        0
    } else {
        1 + first_match(patterns.drop_first(), value)
    }
}

/// The result of an operation; arithmetic wraps around.
pub open spec fn operated(op: BinaryOp, left: Value, right: Value) -> Option<Value> {
    match (op, left, right) {
        (BinaryOp::Eq, _, _) => Some(Value::Bool(left == right)),
        (BinaryOp::Lt, Value::I32(a), Value::I32(b)) => Some(Value::Bool(a < b)),
        (BinaryOp::Add, Value::I32(a), Value::I32(b)) => Some(Value::I32(wrapped(a + b))),
        (BinaryOp::Sub, Value::I32(a), Value::I32(b)) => Some(Value::I32(wrapped(a - b))),
        (BinaryOp::Mul, Value::I32(a), Value::I32(b)) => Some(Value::I32(wrapped(a * b))),
        _ => None,
    }
}

/// The position of a function with the name, if there is one.
pub open spec fn function_named(functions: Seq<FunctionView>, name: Seq<char>) -> Option<int> {
    if exists|k: int| 0 <= k < functions.len() && (#[trigger] functions[k]).name == name {
        Some(choose|k: int| 0 <= k < functions.len() && (#[trigger] functions[k]).name == name)
    } else {
        None
    }
}

/// The value of an expression, where `locals` are bound and at most `depth` calls are nested.
pub open spec fn value_of(p: ProgramView, locals: Names, e: ExprView, depth: nat) -> Option<Value>
    decreases depth, e, 0int,
{
    match e {
        ExprView::Int(value) => Some(Value::I32(value)),
        ExprView::Bool(value) => Some(Value::Bool(value)),
        ExprView::Unit => Some(Value::Unit),
        ExprView::Var(name) => if locals.contains_key(name) {
            Some(locals[name])
        } else {
            None
        },
        ExprView::Call { name, args } => match values_of(p, locals, args, 0, depth) {
            Some(values) => match function_named(p.functions, name) {
                Some(k) => if depth > 0 && p.functions[k].params.len() == values.len() {
                    block_value(
                        p,
                        named(p.functions[k].params, values),
                        p.functions[k].body,
                        (depth - 1) as nat,
                    )
                } else {
                    None
                },
                None => None,
            },
            None => None,
        },
        ExprView::MethodCall { .. } => None,
        ExprView::Binary { op, left, right } => match (
            value_of(p, locals, *left, depth),
            value_of(p, locals, *right, depth),
        ) {
            (Some(a), Some(b)) => operated(op, a, b),
            _ => None,
        },
        ExprView::Match { scrutinee, arms } => match value_of(p, locals, *scrutinee, depth) {
            Some(value) => {
                let k = first_match(arms.map_values(|arm: MatchArmView| arm.pattern), value);
                if 0 <= k < arms.len() {
                    arm_value(p, locals, arms[k], depth)
                } else {
                    None
                }
            },
            None => None,
        },
        ExprView::Block(block) => block_value(p, locals, block, depth),
    }
}

pub open spec fn arm_value(p: ProgramView, locals: Names, arm: MatchArmView, depth: nat) -> Option<
    Value,
>
    decreases depth, arm, 0int,
{
    value_of(p, locals, arm.expr, depth)
}

/// The values of the arguments from `i` on.
pub open spec fn values_of(
    p: ProgramView,
    locals: Names,
    args: Seq<ExprView>,
    i: int,
    depth: nat,
) -> Option<Seq<Value>>
    decreases depth, args, args.len() - i,
{
    if 0 <= i < args.len() {
        match value_of(p, locals, args[i], depth) {
            Some(value) => match values_of(p, locals, args, i + 1, depth) {
                Some(rest) => Some(seq![value] + rest),
                None => None,
            },
            None => None,
        }
    } else {
        Some(Seq::empty())
    }
}

pub open spec fn block_value(p: ProgramView, locals: Names, block: BlockView, depth: nat) -> Option<
    Value,
>
    decreases depth, block, 0int,
{
    run(p, locals, block.items, 0, Value::Unit, depth)
}

/// The value of a block whose items from `i` on are left, and whose value is `last` without them.
pub open spec fn run(
    p: ProgramView,
    locals: Names,
    items: Seq<BlockItemView>,
    i: int,
    last: Value,
    depth: nat,
) -> Option<Value>
    decreases depth, items, items.len() - i,
{
    if 0 <= i < items.len() {
        match item_value(p, locals, items[i], depth) {
            Some(value) => match items[i] {
                BlockItemView::Binding { name, .. } => run(
                    p,
                    locals.insert(name, value),
                    items,
                    i + 1,
                    Value::Unit,
                    depth,
                ),
                BlockItemView::Expr(_) => run(p, locals, items, i + 1, value, depth),
            },
            None => None,
        }
    } else {
        Some(last)
    }
}

pub open spec fn item_value(
    p: ProgramView,
    locals: Names,
    item: BlockItemView,
    depth: nat,
) -> Option<Value>
    decreases depth, item, 0int,
{
    match item {
        BlockItemView::Binding { expr, .. } => value_of(p, locals, expr, depth),
        BlockItemView::Expr(expr) => value_of(p, locals, expr, depth),
    }
}

/// The value that a call of a function gives: that of its body, where the parameter at each
/// position is bound to the argument at that position.
pub open spec fn call_value(
    p: ProgramView,
    name: Seq<char>,
    values: Seq<Value>,
    depth: nat,
) -> Option<Value> {
    match function_named(p.functions, name) {
        Some(k) => if p.functions[k].params.len() == values.len() {
            block_value(p, named(p.functions[k].params, values), p.functions[k].body, depth)
        } else {
            None
        },
        None => None,
    }
}

/// The exit status of a program: the number that `main` gives, 0 or 1 for a truth value, or 0.
pub open spec fn status(p: ProgramView, depth: nat) -> Option<int> {
    match call_value(p, "main"@, Seq::empty(), depth) {
        Some(Value::I32(n)) => Some(n as int),
        Some(Value::Bool(b)) => Some(
            if b {
                0
            } else {
                1
            },
        ),
        Some(Value::Unit) => Some(0),
        None => None,
    }
}

} // verus!
