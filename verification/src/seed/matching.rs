//! What patterns of the seed language match.
use vstd::prelude::*;

use crate::seed::ast::{MatchArmView, Pattern, PrimType};
use crate::seed::inference::{exhaustive, has_pattern, pattern_prim};

verus! {

/// A value of a primitive type.
pub enum Value {
    I32(i32),
    Bool(bool),
    Unit,
}

pub open spec fn value_type(value: Value) -> PrimType {
    match value {
        Value::I32(_) => PrimType::I32,
        Value::Bool(_) => PrimType::Bool,
        Value::Unit => PrimType::Unit,
    }
}

pub open spec fn matches_value(pattern: Pattern, value: Value) -> bool {
    match (pattern, value) {
        (Pattern::Wildcard, _) => true,
        (Pattern::Int(a), Value::I32(b)) => a == b,
        (Pattern::Bool(a), Value::Bool(b)) => a == b,
        (Pattern::Unit, Value::Unit) => true,
        _ => false,
    }
}

/// The pattern matches a value of the type.
pub open spec fn fits(prim: PrimType, pattern: Pattern) -> bool {
    exists|value: Value| value_type(value) == prim && #[trigger] matches_value(pattern, value)
}

/// Some arm matches the value.
pub open spec fn taken(arms: Seq<MatchArmView>, value: Value) -> bool {
    exists|i: int| 0 <= i < arms.len() && matches_value((#[trigger] arms[i]).pattern, value)
}

/// Each value of the type is matched by an arm; numbers, which are many, by one that matches any.
pub open spec fn covering(prim: PrimType, arms: Seq<MatchArmView>) -> bool {
    if prim == PrimType::I32 {
        exists|i: int| 0 <= i < arms.len() && (#[trigger] arms[i]).pattern is Wildcard
    } else {
        forall|value: Value| value_type(value) == prim ==> #[trigger] taken(arms, value)
    }
}

/// A match is accepted as exhaustive exactly where its arms cover the type of its scrutinee.
pub proof fn law_covering(prim: PrimType, arms: Seq<MatchArmView>)
    ensures
        exhaustive(prim, arms) <==> covering(prim, arms),
{
    if exhaustive(prim, arms) {
        assert forall|value: Value| value_type(value) == prim implies #[trigger] taken(
            arms,
            value,
        ) by {
            law_exhaustive(arms, value);
        }
    }
    if covering(prim, arms) {
        if !has_pattern(arms, Pattern::Wildcard) {
            match prim {
                PrimType::Bool => {
                    lemma_taken(arms, Value::Bool(true));
                    lemma_taken(arms, Value::Bool(false));
                },
                PrimType::Unit => lemma_taken(arms, Value::Unit),
                PrimType::I32 => {},
            }
        }
    }
}

/// A value is matched by its own pattern or by the one that matches any value.
proof fn lemma_taken(arms: Seq<MatchArmView>, value: Value)
    requires
        taken(arms, value),
        !has_pattern(arms, Pattern::Wildcard),
    ensures
        has_pattern(
            arms,
            match value {
                Value::I32(n) => Pattern::Int(n),
                Value::Bool(b) => Pattern::Bool(b),
                Value::Unit => Pattern::Unit,
            },
        ),
{
    let i = choose|i: int|
        0 <= i < arms.len() && matches_value((#[trigger] arms[i]).pattern, value);
    assert(arms[i].pattern != Pattern::Wildcard);
}

/// A pattern is typed by the values that it matches.
pub proof fn law_fits(prim: PrimType, pattern: Pattern)
    ensures
        fits(prim, pattern) <==> (pattern_prim(pattern) matches Some(wanted) ==> wanted == prim),
{
    let value = match pattern {
        Pattern::Int(n) => Value::I32(n),
        Pattern::Bool(b) => Value::Bool(b),
        Pattern::Unit => Value::Unit,
        Pattern::Wildcard => match prim {
            PrimType::I32 => Value::I32(0),
            PrimType::Bool => Value::Bool(true),
            PrimType::Unit => Value::Unit,
        },
    };
    assert(matches_value(pattern, value));
}

/// A match that is exhaustive has an arm for each value of the type of its scrutinee.
pub proof fn law_exhaustive(arms: Seq<MatchArmView>, value: Value)
    requires
        exhaustive(value_type(value), arms),
    ensures
        exists|i: int| 0 <= i < arms.len() && matches_value((#[trigger] arms[i]).pattern, value),
{
    let pattern = if has_pattern(arms, Pattern::Wildcard) {
        Pattern::Wildcard
    } else {
        match value {
            Value::I32(n) => Pattern::Int(n),
            Value::Bool(b) => Pattern::Bool(b),
            Value::Unit => Pattern::Unit,
        }
    };
    assert(has_pattern(arms, pattern));
    let i = choose|i: int| 0 <= i < arms.len() && (#[trigger] arms[i]).pattern == pattern;
    assert(matches_value(arms[i].pattern, value));
}

/// A pattern matches values of its own type only.
pub proof fn law_pattern_type(pattern: Pattern, value: Value)
    requires
        matches_value(pattern, value),
    ensures
        pattern_prim(pattern) matches Some(prim) ==> prim == value_type(value),
{
}

} // verus!
