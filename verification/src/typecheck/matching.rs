//! What patterns of the full language match.
use vstd::prelude::*;

use crate::ast::{EnumDeclView, MatchArmView, PatternView, PrimType, TopLevelItemView, TypeView};
use crate::typecheck::model::{
    enum_covered, exhaustive, has_default, has_pattern, has_variant, variant_names, Env,
};
use crate::typecheck::program::types_registered;
use crate::typecheck::soundness::{law_covering, lemma_variants_listed};
use crate::typecheck::typing::{arm_for, arm_of, is_enum, is_variant_of};
use crate::typecheck::variants::{declared_names, declares_enum, law_variants};

verus! {

/// A value, as far as patterns tell values apart.
pub enum Value {
    Int(i32),
    Bool(bool),
    Unit,
    Variant { name: Seq<char>, payload: Option<Box<Value>> },
    Other,
}

pub open spec fn matches_value(pattern: PatternView, value: Value) -> bool
    decreases pattern,
{
    match (pattern, value) {
        (PatternView::Wildcard, _) => true,
        (PatternView::Var(_), _) => true,
        (PatternView::Int(a), Value::Int(b)) => a == b,
        (PatternView::Bool(a), Value::Bool(b)) => a == b,
        (PatternView::Unit, Value::Unit) => true,
        (
            PatternView::Variant { name, payload },
            Value::Variant { name: other, payload: inner },
        ) => name == other && match (payload, inner) {
            (Some(pattern), Some(value)) => matches_value(*pattern, *value),
            (None, None) => true,
            _ => false,
        },
        _ => false,
    }
}

/// The value is one of the enum.
pub open spec fn is_member(env: Env, enum_name: Seq<char>, value: Value) -> bool {
    match value {
        Value::Variant { name, payload } => {
            &&& is_variant_of(env, enum_name, name)
            &&& env.variants.contains_key(name)
            &&& payload is Some <==> env.variants[name].payload is Some
        },
        _ => false,
    }
}

/// The value is one of the type, as far as the type tells what its values are.
pub open spec fn is_value(env: Env, ty: TypeView, value: Value) -> bool {
    match ty {
        TypeView::Prim(PrimType::Bool) => value is Bool,
        TypeView::Prim(PrimType::Unit) => value is Unit,
        TypeView::Named(name) => is_member(env, name, value),
        TypeView::Apply { name, .. } => is_member(env, name, value),
        _ => true,
    }
}

/// A pattern that takes a payload exactly where the variant has one, and matches any payload.
pub open spec fn takes_any_payload(env: Env, pattern: PatternView) -> bool {
    match pattern {
        PatternView::Variant { name, payload } => {
            &&& env.variants.contains_key(name)
            &&& payload is Some <==> env.variants[name].payload is Some
            &&& payload matches Some(inner) ==> *inner is Wildcard || *inner is Var
        },
        _ => true,
    }
}

/// A match that is exhaustive has an arm for each value of the type of its scrutinee, where the
/// payload patterns of its arms match any payload.
pub proof fn law_exhaustive(env: Env, ty: TypeView, arms: Seq<MatchArmView>, value: Value)
    requires
        exhaustive(env, ty, arms),
        is_value(env, ty, value),
        forall|i: int|
            0 <= i < arms.len() ==> takes_any_payload(env, (#[trigger] arms[i]).pattern),
    ensures
        exists|i: int| 0 <= i < arms.len() && matches_value((#[trigger] arms[i]).pattern, value),
{
    if has_default(arms) {
        let i = choose|i: int|
            0 <= i < arms.len() && ((#[trigger] arms[i]).pattern is Wildcard
                || arms[i].pattern is Var);
        assert(matches_value(arms[i].pattern, value));
    } else {
        match ty {
            TypeView::Prim(PrimType::Bool) => {
                let pattern = PatternView::Bool(value->Bool_0);
                assert(has_pattern(arms, pattern));
                let i = choose|i: int|
                    0 <= i < arms.len() && (#[trigger] arms[i]).pattern == pattern;
                assert(matches_value(arms[i].pattern, value));
            },
            TypeView::Prim(PrimType::Unit) => {
                let i = choose|i: int|
                    0 <= i < arms.len() && (#[trigger] arms[i]).pattern == PatternView::Unit;
                assert(matches_value(arms[i].pattern, value));
            },
            TypeView::Named(name) => lemma_enum_covered(env, name, arms, value),
            TypeView::Apply { name, .. } => lemma_enum_covered(env, name, arms, value),
            _ => {},
        }
    }
}

pub proof fn lemma_enum_covered(
    env: Env,
    name: Seq<char>,
    arms: Seq<MatchArmView>,
    value: Value,
)
    requires
        enum_covered(env, name, arms),
        is_member(env, name, value),
        forall|i: int|
            0 <= i < arms.len() ==> takes_any_payload(env, (#[trigger] arms[i]).pattern),
    ensures
        exists|i: int| 0 <= i < arms.len() && matches_value((#[trigger] arms[i]).pattern, value),
{
    let names = variant_names(env, name)->Some_0;
    let variant = value->Variant_name;
    lemma_variants_listed(env, name);
    assert(is_variant_of(env, name, variant));
    let k = choose|k: int| 0 <= k < names.len() && #[trigger] names[k] == variant;
    assert(has_variant(arms, names[k]));
    let i = choose|i: int|
        0 <= i < arms.len() && ((#[trigger] arms[i]).pattern matches PatternView::Variant {
            name: other,
            ..
        } && other == variant);
    assert(takes_any_payload(env, arms[i].pattern));
    reveal_with_fuel(matches_value, 2);
    assert(matches_value(arms[i].pattern, value));
}

/// Some arm matches the value.
pub open spec fn taken(arms: Seq<MatchArmView>, value: Value) -> bool {
    exists|i: int| 0 <= i < arms.len() && matches_value((#[trigger] arms[i]).pattern, value)
}

/// The type has few values, as far as patterns tell them apart: truth values, the value of `Unit`,
/// or the variants of a declared or built-in enum.
pub open spec fn has_cases(env: Env, ty: TypeView) -> bool {
    match ty {
        TypeView::Prim(prim) => prim == PrimType::Bool || prim == PrimType::Unit,
        TypeView::Named(name) => is_enum(env, name),
        TypeView::Apply { name, .. } => is_enum(env, name),
        _ => false,
    }
}

/// The variants of the enums are registered.
pub open spec fn variants_registered(env: Env) -> bool {
    forall|name: Seq<char>, variant: Seq<char>| #[trigger]
        is_variant_of(env, name, variant) ==> env.variants.contains_key(variant)
}

/// A match whose arms leave no value of the type of its scrutinee out is exhaustive.
pub proof fn law_cases(env: Env, ty: TypeView, arms: Seq<MatchArmView>)
    requires
        variants_registered(env),
        has_cases(env, ty),
        forall|value: Value| is_value(env, ty, value) ==> #[trigger] taken(arms, value),
    ensures
        exhaustive(env, ty, arms),
{
    law_covering(env, ty, arms);
    if !has_default(arms) {
        match ty {
            TypeView::Prim(PrimType::Bool) => {
                assert forall|truth: bool| #[trigger]
                    arm_of(arms, PatternView::Bool(truth)) by {
                    assert(taken(arms, Value::Bool(truth)));
                    let i = choose|i: int|
                        0 <= i < arms.len() && matches_value(
                            (#[trigger] arms[i]).pattern,
                            Value::Bool(truth),
                        );
                    assert(arms[i].pattern == PatternView::Bool(truth));
                }
            },
            TypeView::Prim(_) => {
                assert(taken(arms, Value::Unit));
                let i = choose|i: int|
                    0 <= i < arms.len() && matches_value((#[trigger] arms[i]).pattern, Value::Unit);
                assert(arms[i].pattern == PatternView::Unit);
            },
            TypeView::Named(name) => lemma_cases(env, ty, name, arms),
            TypeView::Apply { name, .. } => lemma_cases(env, ty, name, arms),
            _ => {},
        }
    }
}

proof fn lemma_cases(env: Env, ty: TypeView, name: Seq<char>, arms: Seq<MatchArmView>)
    requires
        variants_registered(env),
        forall|value: Value| is_member(env, name, value) ==> #[trigger] taken(arms, value),
        !has_default(arms),
    ensures
        forall|variant: Seq<char>|
            is_variant_of(env, name, variant) ==> #[trigger] arm_for(arms, variant),
{
    assert forall|variant: Seq<char>|
        is_variant_of(env, name, variant) implies #[trigger] arm_for(arms, variant) by {
        let payload = if env.variants[variant].payload is Some {
            Some(Box::new(Value::Other))
        } else {
            None
        };
        let value = Value::Variant { name: variant, payload };
        assert(is_member(env, name, value));
        assert(taken(arms, value));
        let i = choose|i: int|
            0 <= i < arms.len() && matches_value((#[trigger] arms[i]).pattern, value);
        assert(arms[i].pattern matches PatternView::Variant { name: other, .. } && other == variant);
    }
}

/// In a program whose types are registered, a match with an arm for each variant that its enum is
/// declared with is exhaustive, whatever the type arguments are.
pub proof fn law_each_variant(
    start: Env,
    items: Seq<TopLevelItemView>,
    decl: EnumDeclView,
    args: Seq<TypeView>,
    arms: Seq<MatchArmView>,
)
    requires
        start.enums == Map::<Seq<char>, EnumDeclView>::empty(),
        types_registered(start, items).1 is Ok,
        items.contains(TopLevelItemView::Enum(decl)),
        decl.name != "Result"@,
        decl.name != "PlatformError"@,
        forall|k: int|
            0 <= k < decl.variants.len() ==> arm_for(arms, (#[trigger] decl.variants[k]).name),
    ensures
        exhaustive(types_registered(start, items).0, TypeView::Named(decl.name), arms),
        exhaustive(
            types_registered(start, items).0,
            TypeView::Apply { name: decl.name, args },
            arms,
        ),
{
    let env = types_registered(start, items).0;
    let k = choose|k: int|
        0 <= k < items.len() && #[trigger] items[k] == TopLevelItemView::Enum(decl);
    assert(declares_enum(items[k], decl.name));
    law_variants(start, items, decl.name);
    lemma_variants_listed(env, decl.name);
    let names = declared_names(decl);
    assert forall|variant: Seq<char>|
        is_variant_of(env, decl.name, variant) implies #[trigger] arm_for(arms, variant) by {
        let j = choose|j: int| 0 <= j < names.len() && #[trigger] names[j] == variant;
        assert(decl.variants[j].name == variant);
    }
    law_covering(env, TypeView::Named(decl.name), arms);
    law_covering(env, TypeView::Apply { name: decl.name, args }, arms);
}

/// A match with an arm for each variant of a built-in enum is exhaustive.
pub proof fn law_built_in_covered(env: Env, args: Seq<TypeView>, arms: Seq<MatchArmView>)
    ensures
        arm_for(arms, "Ok"@) && arm_for(arms, "Err"@) ==> exhaustive(
            env,
            TypeView::Apply { name: "Result"@, args },
            arms,
        ),
        arm_for(arms, "Unsupported"@) && arm_for(arms, "Unavailable"@) && arm_for(
            arms,
            "Interrupted"@,
        ) && arm_for(arms, "InvalidUtf8"@) && arm_for(arms, "Unknown"@) ==> exhaustive(
            env,
            TypeView::Named("PlatformError"@),
            arms,
        ),
{
    reveal_strlit("Result");
    reveal_strlit("PlatformError");
    assert("Result"@.len() == 6 && "PlatformError"@.len() == 13);
    law_covering(env, TypeView::Apply { name: "Result"@, args }, arms);
    law_covering(env, TypeView::Named("PlatformError"@), arms);
}

/// Once the types of a program are registered, so are the variants of its enums.
pub proof fn law_variants_registered(start: Env, items: Seq<TopLevelItemView>)
    requires
        start.enums == Map::<Seq<char>, EnumDeclView>::empty(),
        types_registered(start, items).1 is Ok,
    ensures
        variants_registered(types_registered(start, items).0),
{
    let env = types_registered(start, items).0;
    assert forall|name: Seq<char>, variant: Seq<char>| #[trigger]
        is_variant_of(env, name, variant) implies env.variants.contains_key(variant) by {
        law_variants(start, items, name);
        lemma_variants_listed(env, name);
        let names = variant_names(env, name)->Some_0;
        let j = choose|j: int| 0 <= j < names.len() && #[trigger] names[j] == variant;
        assert(env.variants.contains_key(names[j]));
    }
}

} // verus!
