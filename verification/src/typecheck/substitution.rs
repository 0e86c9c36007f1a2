//! Types for type parameters.
use vstd::prelude::*;

use crate::ast::{type_views, FunctionType, FunctionTypeView, Type, TypeView};
use crate::names::NameMap;
use crate::text::{same_text, texts};
use crate::types::copy_type;

verus! {

/// Types for some type parameters.
pub type Substitution = Map<Seq<char>, TypeView>;

/// The type for a parameter; a parameter without one stands for itself.
pub open spec fn substitute(substitution: Substitution, name: Seq<char>) -> TypeView {
    if substitution.contains_key(name) {
        substitution[name]
    } else {
        TypeView::GenericParam(name)
    }
}

/// The type with each parameter replaced.
pub open spec fn substituted(ty: TypeView, substitution: Substitution) -> TypeView
    decreases ty,
{
    match ty {
        TypeView::GenericParam(name) => substitute(substitution, name),
        TypeView::Apply { name, args } => TypeView::Apply {
            name,
            args: all_substituted(args, substitution),
        },
        TypeView::Function(function) => TypeView::Function(
            function_substituted(function, substitution),
        ),
        TypeView::Prim(_) | TypeView::Named(_) => ty,
    }
}

pub open spec fn function_substituted(
    function: FunctionTypeView,
    substitution: Substitution,
) -> FunctionTypeView
    decreases function,
{
    FunctionTypeView {
        params: all_substituted(function.params, substitution),
        ret: Box::new(substituted(*function.ret, substitution)),
        effectful: function.effectful,
    }
}

pub open spec fn all_substituted(list: Seq<TypeView>, substitution: Substitution) -> Seq<TypeView>
    decreases list,
{
    Seq::new(
        list.len(),
        |i: int|
            if 0 <= i < list.len() {
                substituted(list[i], substitution)
            } else {
                arbitrary()
            },
    )
}

/// A type parameter occurs in the type.
pub open spec fn is_generic(ty: TypeView) -> bool
    decreases ty, 0int,
{
    match ty {
        TypeView::GenericParam(_) => true,
        TypeView::Apply { args, .. } => any_generic(args, args.len() as int),
        TypeView::Function(function) => function_is_generic(function),
        TypeView::Prim(_) | TypeView::Named(_) => false,
    }
}

pub open spec fn function_is_generic(function: FunctionTypeView) -> bool
    decreases function, 0int,
{
    any_generic(function.params, function.params.len() as int) || is_generic(*function.ret)
}

/// A type parameter occurs in one of the first `n` types.
pub open spec fn any_generic(list: Seq<TypeView>, n: int) -> bool
    decreases list, n,
{
    if n <= 0 || n > list.len() {
        false
    } else {
        any_generic(list, n - 1) || is_generic(list[n - 1])
    }
}

/// The types that the parameters in `pattern` must stand for to make it `actual`, besides those
/// that are known. The first type found for a parameter stays.
pub open spec fn inferred(
    pattern: TypeView,
    actual: TypeView,
    known: Substitution,
) -> Substitution
    decreases pattern, 0int,
{
    match (pattern, actual) {
        (TypeView::GenericParam(name), _) => if known.contains_key(name) {
            known
        } else {
            known.insert(name, actual)
        },
        (TypeView::Apply { name, args }, TypeView::Apply { name: other, args: others }) => if name
            == other && args.len() == others.len() {
            all_inferred(args, others, known, 0)
        } else {
            known
        },
        (TypeView::Function(function), TypeView::Function(other)) => function_inferred(
            function,
            other,
            known,
        ),
        _ => known,
    }
}

pub open spec fn function_inferred(
    pattern: FunctionTypeView,
    actual: FunctionTypeView,
    known: Substitution,
) -> Substitution
    decreases pattern, 0int,
{
    inferred(*pattern.ret, *actual.ret, all_inferred(pattern.params, actual.params, known, 0))
}

/// The same for the types from position `i` on that both lists have.
pub open spec fn all_inferred(
    patterns: Seq<TypeView>,
    actuals: Seq<TypeView>,
    known: Substitution,
    i: int,
) -> Substitution
    decreases patterns, patterns.len() - i,
{
    if 0 <= i < patterns.len() && i < actuals.len() {
        all_inferred(patterns, actuals, inferred(patterns[i], actuals[i], known), i + 1)
    } else {
        known
    }
}

/// The first `n` parameters with their types. A later type for a name hides an earlier one.
pub open spec fn paired(params: Seq<Seq<char>>, args: Seq<TypeView>, n: int) -> Substitution
    decreases n,
{
    if n <= 0 {
        Map::empty()
    } else {
        paired(params, args, n - 1).insert(params[n - 1], args[n - 1])
    }
}

/// The parameters with their types, as far as both lists go.
pub open spec fn pairing(params: Seq<Seq<char>>, args: Seq<TypeView>) -> Substitution {
    paired(
        params,
        args,
        if params.len() <= args.len() {
            params.len() as int
        } else {
            args.len() as int
        },
    )
}

pub fn type_is_generic_placeholder(ty: &Type) -> (generic: bool)
    ensures
        generic == is_generic(ty@),
    decreases ty, 0int,
{
    match ty {
        Type::GenericParam(_) => true,
        Type::Apply { args, .. } => {
            assert(type_views(args@).len() == args.len());
            find_generic(args)
        },
        Type::Function(function) => function_type_is_generic(function),
        Type::Prim(_) | Type::Named(_) => false,
    }
}

fn function_type_is_generic(function: &FunctionType) -> (generic: bool)
    ensures
        generic == function_is_generic(function@),
    decreases function, 0int,
{
    assert(type_views(function.params@).len() == function.params.len());
    find_generic(&function.params) || type_is_generic_placeholder(&function.ret)
}

fn find_generic(list: &Vec<Type>) -> (generic: bool)
    ensures
        generic == any_generic(type_views(list@), list.len() as int),
    decreases list, 0int,
{
    let ghost views = type_views(list@);
    let mut generic = false;
    let mut i: usize = 0;
    while i < list.len()
        invariant
            i <= list.len(),
            views == type_views(list@),
            generic == any_generic(views, i as int),
        decreases list.len() - i,
    {
        assert(views[i as int] == list@[i as int]@);
        let one = type_is_generic_placeholder(&list[i]);
        generic = generic || one;
        i += 1;
    }
    generic
}

pub fn substitute_type(ty: &Type, substitutions: &NameMap<Type>) -> (result: Type)
    ensures
        result@ == substituted(ty@, substitutions@),
    decreases ty, 0int,
{
    match ty {
        Type::GenericParam(name) => match substitutions.get(name.as_str()) {
            Some(ty) => copy_type(ty),
            None => Type::GenericParam(name.clone()),
        },
        Type::Apply { name, args } => Type::Apply {
            name: name.clone(),
            args: substitute_types(args, substitutions),
        },
        Type::Function(function) => Type::Function(
            substitute_function_type(function, substitutions),
        ),
        Type::Prim(prim) => Type::Prim(*prim),
        Type::Named(name) => Type::Named(name.clone()),
    }
}

fn substitute_function_type(function: &FunctionType, substitutions: &NameMap<Type>) -> (result:
    FunctionType)
    ensures
        result@ == function_substituted(function@, substitutions@),
    decreases function, 0int,
{
    FunctionType {
        params: substitute_types(&function.params, substitutions),
        ret: Box::new(substitute_type(&function.ret, substitutions)),
        effectful: function.effectful,
    }
}

fn substitute_types(list: &Vec<Type>, substitutions: &NameMap<Type>) -> (result: Vec<Type>)
    ensures
        type_views(result@) == all_substituted(type_views(list@), substitutions@),
    decreases list, 0int,
{
    let ghost views = type_views(list@);
    let mut result: Vec<Type> = Vec::new();
    let mut i: usize = 0;
    while i < list.len()
        invariant
            i <= list.len(),
            views == type_views(list@),
            result.len() == i,
            forall|k: int|
                0 <= k < i ==> (#[trigger] result@[k])@ == substituted(views[k], substitutions@),
        decreases list.len() - i,
    {
        assert(views[i as int] == list@[i as int]@);
        let ty = substitute_type(&list[i], substitutions);
        result.push(ty);
        i += 1;
    }
    assert(type_views(result@) =~= all_substituted(views, substitutions@)) by {
        assert forall|k: int| 0 <= k < views.len() implies type_views(result@)[k]
            == all_substituted(views, substitutions@)[k] by {
            assert(result@[k]@ == substituted(views[k], substitutions@));
        }
    }
    result
}

pub fn substitute_type_for_params(ty: &Type, params: &Vec<String>, args: &Vec<Type>) -> (result:
    Type)
    ensures
        result@ == substituted(ty@, pairing(texts(params@), type_views(args@))),
{
    let ghost names = texts(params@);
    let ghost views = type_views(args@);
    let mut substitutions: NameMap<Type> = NameMap::new();
    let mut i: usize = 0;
    while i < params.len() && i < args.len()
        invariant
            i <= params.len(),
            i <= args.len(),
            names == texts(params@),
            views == type_views(args@),
            substitutions@ == paired(names, views, i as int),
        decreases params.len() - i,
    {
        assert(names[i as int] == params@[i as int]@);
        assert(views[i as int] == args@[i as int]@);
        substitutions.insert(params[i].clone(), copy_type(&args[i]));
        i += 1;
    }
    substitute_type(ty, &substitutions)
}

pub fn infer_type_arguments(pattern: &Type, actual: &Type, substitutions: &mut NameMap<Type>)
    ensures
        final(substitutions)@ == inferred(pattern@, actual@, old(substitutions)@),
    decreases pattern, 0int,
{
    match (pattern, actual) {
        (Type::GenericParam(name), _) => {
            if !substitutions.contains_key(name.as_str()) {
                substitutions.insert(name.clone(), copy_type(actual));
            }
        },
        (Type::Apply { name, args }, Type::Apply { name: other, args: others }) => {
            assert(type_views(args@).len() == args.len());
            assert(type_views(others@).len() == others.len());
            if same_text(name.as_str(), other.as_str()) && args.len() == others.len() {
                infer_all(args, others, substitutions);
            }
        },
        (Type::Function(function), Type::Function(other)) => {
            infer_function(function, other, substitutions);
        },
        _ => {},
    }
}

fn infer_function(
    pattern: &FunctionType,
    actual: &FunctionType,
    substitutions: &mut NameMap<Type>,
)
    ensures
        final(substitutions)@ == function_inferred(pattern@, actual@, old(substitutions)@),
    decreases pattern, 0int,
{
    infer_all(&pattern.params, &actual.params, substitutions);
    infer_type_arguments(&pattern.ret, &actual.ret, substitutions);
}

fn infer_all(patterns: &Vec<Type>, actuals: &Vec<Type>, substitutions: &mut NameMap<Type>)
    ensures
        final(substitutions)@ == all_inferred(
            type_views(patterns@),
            type_views(actuals@),
            old(substitutions)@,
            0,
        ),
    decreases patterns, 0int,
{
    let ghost left = type_views(patterns@);
    let ghost right = type_views(actuals@);
    let ghost goal = all_inferred(left, right, substitutions@, 0);
    let mut i: usize = 0;
    while i < patterns.len() && i < actuals.len()
        invariant
            i <= patterns.len(),
            i <= actuals.len(),
            left == type_views(patterns@),
            right == type_views(actuals@),
            goal == all_inferred(left, right, old(substitutions)@, 0),
            goal == all_inferred(left, right, substitutions@, i as int),
        decreases patterns.len() - i,
    {
        assert(left[i as int] == patterns@[i as int]@);
        assert(right[i as int] == actuals@[i as int]@);
        infer_type_arguments(&patterns[i], &actuals[i], substitutions);
        i += 1;
    }
}

/// A type without type parameters is not changed by a substitution.
pub proof fn law_closed(ty: TypeView, substitution: Substitution)
    requires
        !is_generic(ty),
    ensures
        substituted(ty, substitution) == ty,
    decreases ty, 0int,
{
    match ty {
        TypeView::Apply { name, args } => {
            lemma_all_closed(args, args.len() as int, substitution);
            assert(all_substituted(args, substitution) =~= args);
        },
        TypeView::Function(function) => lemma_function_closed(function, substitution),
        _ => {},
    }
}

pub proof fn lemma_function_closed(function: FunctionTypeView, substitution: Substitution)
    requires
        !function_is_generic(function),
    ensures
        function_substituted(function, substitution) == function,
    decreases function, 0int,
{
    lemma_all_closed(function.params, function.params.len() as int, substitution);
    assert(all_substituted(function.params, substitution) =~= function.params);
    law_closed(*function.ret, substitution);
}

pub proof fn lemma_all_closed(list: Seq<TypeView>, n: int, substitution: Substitution)
    requires
        0 <= n <= list.len(),
        !any_generic(list, n),
    ensures
        forall|i: int| 0 <= i < n ==> substituted(#[trigger] list[i], substitution) == list[i],
    decreases list, n,
{
    if n > 0 {
        lemma_all_closed(list, n - 1, substitution);
        law_closed(list[n - 1], substitution);
    }
}

/// Each type in `part` is the one that `whole` gives.
pub open spec fn consistent(part: Substitution, whole: Substitution) -> bool {
    forall|name: Seq<char>| #[trigger]
        part.contains_key(name) ==> part[name] == substitute(whole, name)
}

/// `longer` keeps the types of `shorter`.
pub open spec fn keeps_all(longer: Substitution, shorter: Substitution) -> bool {
    forall|name: Seq<char>| #[trigger]
        shorter.contains_key(name) ==> longer.contains_key(name) && longer[name] == shorter[name]
}

/// Each parameter in the type has a type in the substitution.
pub open spec fn covers(substitution: Substitution, ty: TypeView) -> bool
    decreases ty, 0int,
{
    match ty {
        TypeView::GenericParam(name) => substitution.contains_key(name),
        TypeView::Apply { args, .. } => covers_all(substitution, args, args.len() as int),
        TypeView::Function(function) => covers_function(substitution, function),
        TypeView::Prim(_) | TypeView::Named(_) => true,
    }
}

pub open spec fn covers_function(substitution: Substitution, function: FunctionTypeView) -> bool
    decreases function, 0int,
{
    covers_all(substitution, function.params, function.params.len() as int) && covers(
        substitution,
        *function.ret,
    )
}

pub open spec fn covers_all(substitution: Substitution, list: Seq<TypeView>, n: int) -> bool
    decreases list, n,
{
    if n <= 0 || n > list.len() {
        true
    } else {
        covers_all(substitution, list, n - 1) && covers(substitution, list[n - 1])
    }
}

pub proof fn lemma_covers_more(shorter: Substitution, longer: Substitution, ty: TypeView)
    requires
        keeps_all(longer, shorter),
        covers(shorter, ty),
    ensures
        covers(longer, ty),
    decreases ty, 0int,
{
    match ty {
        TypeView::Apply { args, .. } => lemma_covers_all_more(
            shorter,
            longer,
            args,
            args.len() as int,
        ),
        TypeView::Function(function) => lemma_covers_function_more(shorter, longer, function),
        _ => {},
    }
}

pub proof fn lemma_covers_function_more(
    shorter: Substitution,
    longer: Substitution,
    function: FunctionTypeView,
)
    requires
        keeps_all(longer, shorter),
        covers_function(shorter, function),
    ensures
        covers_function(longer, function),
    decreases function, 0int,
{
    lemma_covers_all_more(shorter, longer, function.params, function.params.len() as int);
    lemma_covers_more(shorter, longer, *function.ret);
}

pub proof fn lemma_covers_all_more(
    shorter: Substitution,
    longer: Substitution,
    list: Seq<TypeView>,
    n: int,
)
    requires
        0 <= n <= list.len(),
        keeps_all(longer, shorter),
        covers_all(shorter, list, n),
    ensures
        covers_all(longer, list, n),
    decreases list, n,
{
    if n > 0 {
        lemma_covers_all_more(shorter, longer, list, n - 1);
        lemma_covers_more(shorter, longer, list[n - 1]);
    }
}

/// Two consistent substitutions give the same type where the one covers it.
pub proof fn lemma_consistent(part: Substitution, whole: Substitution, ty: TypeView)
    requires
        consistent(part, whole),
        covers(part, ty),
    ensures
        substituted(ty, part) == substituted(ty, whole),
    decreases ty, 0int,
{
    match ty {
        TypeView::Apply { args, .. } => {
            lemma_all_consistent(part, whole, args, args.len() as int);
            assert(all_substituted(args, part) =~= all_substituted(args, whole));
        },
        TypeView::Function(function) => lemma_function_consistent(part, whole, function),
        _ => {},
    }
}

pub proof fn lemma_function_consistent(
    part: Substitution,
    whole: Substitution,
    function: FunctionTypeView,
)
    requires
        consistent(part, whole),
        covers_function(part, function),
    ensures
        function_substituted(function, part) == function_substituted(function, whole),
    decreases function, 0int,
{
    lemma_all_consistent(part, whole, function.params, function.params.len() as int);
    assert(all_substituted(function.params, part) =~= all_substituted(function.params, whole));
    lemma_consistent(part, whole, *function.ret);
}

pub proof fn lemma_all_consistent(
    part: Substitution,
    whole: Substitution,
    list: Seq<TypeView>,
    n: int,
)
    requires
        0 <= n <= list.len(),
        consistent(part, whole),
        covers_all(part, list, n),
    ensures
        forall|i: int|
            0 <= i < n ==> substituted(#[trigger] list[i], part) == substituted(list[i], whole),
    decreases list, n,
{
    if n > 0 {
        lemma_all_consistent(part, whole, list, n - 1);
        lemma_consistent(part, whole, list[n - 1]);
    }
}

/// What inference from an instance gives: consistent types for all parameters.
pub open spec fn explains(
    after: Substitution,
    before: Substitution,
    whole: Substitution,
) -> bool {
    &&& keeps_all(after, before)
    &&& consistent(after, whole)
}

pub proof fn lemma_inferred(
    pattern: TypeView,
    whole: Substitution,
    known: Substitution,
)
    requires
        consistent(known, whole),
    ensures
        explains(inferred(pattern, substituted(pattern, whole), known), known, whole),
        covers(inferred(pattern, substituted(pattern, whole), known), pattern),
    decreases pattern, 0int,
{
    match pattern {
        TypeView::Apply { args, .. } => {
            lemma_all_inferred(args, whole, known, 0);
        },
        TypeView::Function(function) => lemma_function_inferred(function, whole, known),
        _ => {},
    }
}

pub proof fn lemma_function_inferred(
    pattern: FunctionTypeView,
    whole: Substitution,
    known: Substitution,
)
    requires
        consistent(known, whole),
    ensures
        explains(
            function_inferred(pattern, function_substituted(pattern, whole), known),
            known,
            whole,
        ),
        covers_function(
            function_inferred(pattern, function_substituted(pattern, whole), known),
            pattern,
        ),
    decreases pattern, 0int,
{
    let params = pattern.params;
    lemma_all_inferred(params, whole, known, 0);
    let one = all_inferred(params, all_substituted(params, whole), known, 0);
    lemma_inferred(*pattern.ret, whole, one);
    let two = inferred(*pattern.ret, substituted(*pattern.ret, whole), one);
    lemma_covers_all_more(one, two, params, params.len() as int);
}

pub proof fn lemma_all_inferred(
    patterns: Seq<TypeView>,
    whole: Substitution,
    known: Substitution,
    i: int,
)
    requires
        0 <= i <= patterns.len(),
        consistent(known, whole),
        covers_all(known, patterns, i),
    ensures
        explains(
            all_inferred(patterns, all_substituted(patterns, whole), known, i),
            known,
            whole,
        ),
        covers_all(
            all_inferred(patterns, all_substituted(patterns, whole), known, i),
            patterns,
            patterns.len() as int,
        ),
    decreases patterns, patterns.len() - i,
{
    if i < patterns.len() {
        let actuals = all_substituted(patterns, whole);
        lemma_inferred(patterns[i], whole, known);
        let one = inferred(patterns[i], actuals[i], known);
        lemma_covers_all_more(known, one, patterns, i);
        lemma_all_inferred(patterns, whole, one, i + 1);
    }
}

/// Without types for any parameter, a type stays as it is.
pub proof fn law_unpaired(ty: TypeView)
    ensures
        substituted(ty, Map::empty()) == ty,
    decreases ty, 0int,
{
    match ty {
        TypeView::Apply { name, args } => lemma_list_unpaired(args),
        TypeView::Function(function) => {
            lemma_list_unpaired(function.params);
            law_unpaired(*function.ret);
            assert(function_substituted(function, Map::empty()) == function);
        },
        _ => {},
    }
}

proof fn lemma_list_unpaired(list: Seq<TypeView>)
    ensures
        all_substituted(list, Map::empty()) == list,
    decreases list, 1int,
{
    assert forall|i: int| 0 <= i < list.len() implies #[trigger] all_substituted(
        list,
        Map::empty(),
    )[i] == list[i] by {
        law_unpaired(list[i]);
    }
    assert(all_substituted(list, Map::empty()) =~= list);
}

/// Inference undoes substitution: from an instance of a type, it finds types for the parameters
/// that make the type that instance again.
pub proof fn law_inferred(pattern: TypeView, substitution: Substitution)
    ensures
        ({
            let actual = substituted(pattern, substitution);
            substituted(pattern, inferred(pattern, actual, Map::empty())) == actual
        }),
{
    let actual = substituted(pattern, substitution);
    let found = inferred(pattern, actual, Map::empty());
    lemma_inferred(pattern, substitution, Map::empty());
    lemma_consistent(found, substitution, pattern);
}

} // verus!
