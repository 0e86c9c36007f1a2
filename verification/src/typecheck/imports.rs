//! Which imports and functions are accepted, and what is known of them.
use vstd::prelude::*;

use crate::ast::{
    functions_before, functions_of, FunctionView, ImportOrigin, ImportView, ProgramView,
    TopLevelItemView, TypeView,
};
use crate::capability::{has_rank, law_union, set_of, union_of, Capability};
use crate::platform::{import_target, ExternView, PlatformView};
use crate::slots::Store;
use crate::typecheck::declarations::{holds, law_types, new_type, nothing, valid_type};
use crate::typecheck::laws::{
    annotated_slot, lemma_extern, lemma_functions_registered, lemma_items_signatures,
    lemma_with_known, settled,
};
use crate::typecheck::model::{type_validated, Env, Signature, Types};
use crate::typecheck::program::{
    extern_known, function_registered, functions_registered, import_registered, imports_registered,
    params_registered, program_registered, types_registered, with_builtins, with_known,
    with_variants, Known,
};
use crate::typecheck::soundness::law_valid;
use crate::typecheck::stability::{fixed, kept, lemma_kept_twice, lemma_with};
use crate::typecheck::substitution::is_generic;
use crate::typecheck::typing::valid;

verus! {

/// The functions of a program are those among its items, in their order.
pub proof fn law_functions(program: ProgramView)
    ensures
        functions_of(program) == program.items.filter(
            |item: TopLevelItemView| item is Function,
        ).map_values(|item: TopLevelItemView| item->Function_0),
{
    lemma_functions(program.items, program.items.len() as int);
    assert(program.items.take(program.items.len() as int) =~= program.items);
}

proof fn lemma_functions(items: Seq<TopLevelItemView>, n: int)
    requires
        0 <= n <= items.len(),
    ensures
        functions_before(items, n) =~= items.take(n).filter(
            |item: TopLevelItemView| item is Function,
        ).map_values(|item: TopLevelItemView| item->Function_0),
    decreases n,
{
    reveal(Seq::filter);
    if n > 0 {
        lemma_functions(items, n - 1);
        assert(items.take(n).drop_last() =~= items.take(n - 1));
        assert(items.take(n).last() == items[n - 1]);
    }
}

/// The platform offers the function at the position under the path and the name, and none before.
pub open spec fn offers(
    externs: Seq<ExternView>,
    path: Seq<Seq<char>>,
    name: Seq<char>,
    m: int,
) -> bool {
    &&& 0 <= m < externs.len()
    &&& externs[m].path == path
    &&& externs[m].name == name
    &&& forall|l: int|
        0 <= l < m ==> (#[trigger] externs[l]).path != path || externs[l].name != name
}

/// An import is resolved to the first function with its path and its name, if there is one.
pub proof fn law_import_target(externs: Seq<ExternView>, path: Seq<Seq<char>>, name: Seq<char>)
    ensures
        match import_target(externs, path, name, 0) {
            Some(function) => exists|m: int| #[trigger]
                offers(externs, path, name, m) && externs[m] == function,
            None => forall|m: int|
                0 <= m < externs.len() ==> (#[trigger] externs[m]).path != path || externs[m].name
                    != name,
        },
{
    lemma_target(externs, path, name, 0);
}

proof fn lemma_target(externs: Seq<ExternView>, path: Seq<Seq<char>>, name: Seq<char>, i: int)
    requires
        0 <= i <= externs.len(),
        forall|m: int|
            0 <= m < i ==> (#[trigger] externs[m]).path != path || externs[m].name != name,
    ensures
        match import_target(externs, path, name, i) {
            Some(function) => exists|m: int| #[trigger]
                offers(externs, path, name, m) && externs[m] == function,
            None => forall|m: int|
                0 <= m < externs.len() ==> (#[trigger] externs[m]).path != path || externs[m].name
                    != name,
        },
    decreases externs.len() - i,
{
    if i < externs.len() {
        if externs[i].path == path && externs[i].name == name {
            assert(offers(externs, path, name, i) && externs[i] == externs[i]);
        } else {
            lemma_target(externs, path, name, i + 1);
        }
    }
}

/// The import is that of a function that the platform offers. A path under `platform` is open to
/// the standard library only.
pub open spec fn import_fits(platform: PlatformView, import: ImportView) -> bool {
    &&& import.origin == ImportOrigin::Stdlib || import.path.len() == 0 || import.path[0]
        != "platform"@
    &&& exists|m: int|
        0 <= m < platform.externs.len() && (#[trigger] platform.externs[m]).path == import.path
            && platform.externs[m].name == import.name
}

pub open spec fn imports_name(item: TopLevelItemView, name: Seq<char>) -> bool {
    item matches TopLevelItemView::Import(import) && import.name == name
}

/// The item, if it is an import, fits, and no item before it imports the same name.
pub open spec fn import_in_order(
    platform: PlatformView,
    items: Seq<TopLevelItemView>,
    i: int,
) -> bool {
    items[i] matches TopLevelItemView::Import(import) ==> import_fits(platform, import) && forall|
        k: int,
    |
        0 <= k < i ==> !imports_name(#[trigger] items[k], import.name)
}

/// The item imports the function at the position.
pub open spec fn resolves(platform: PlatformView, item: TopLevelItemView, m: int) -> bool {
    item matches TopLevelItemView::Import(import) && offers(
        platform.externs,
        import.path,
        import.name,
        m,
    )
}

/// What is known by the name are the types, the effects and the capabilities of the function.
pub open spec fn known_as(known: Known, name: Seq<char>, function: ExternView) -> bool {
    let signature = known.env.signatures[name];
    &&& known.env.signatures.contains_key(name)
    &&& signature.params.len() == function.params.len()
    &&& forall|j: int|
        0 <= j < function.params.len() ==> annotated_slot(
            known.types,
            signature.params[j],
            Some(#[trigger] function.params[j]),
        )
    &&& annotated_slot(known.types, signature.ret, Some(function.ret))
    &&& signature.effectful == function.effectful
    &&& signature.declared matches Some(declared) && forall|rank: u32| #[trigger]
        has_rank(declared, rank) <==> exists|i: int|
            0 <= i < function.capabilities.len() && (#[trigger] function.capabilities[i]).rank
                == rank
}

/// No type parameter is open in the types of the function.
pub open spec fn closed(function: ExternView) -> bool {
    &&& forall|j: int| 0 <= j < function.params.len() ==> !is_generic(#[trigger] function.params[j])
    &&& !is_generic(function.ret)
}

proof fn lemma_slots(types: Types, list: Seq<TypeView>, n: int)
    requires
        types.wf(),
        0 <= n <= list.len(),
        forall|j: int| 0 <= j < list.len() ==> !is_generic(#[trigger] list[j]),
    ensures
        kept(with_known(types, list, n), types),
        with_known(types, list, n).len() == types.len() + n,
        forall|j: int|
            0 <= j < n ==> annotated_slot(
                with_known(types, list, n),
                types.len() + j,
                Some(#[trigger] list[j]),
            ),
    decreases n,
{
    lemma_with_known(types, list, n);
    if n > 0 {
        let one = with_known(types, list, n - 1);
        let after = with_known(types, list, n);
        lemma_slots(types, list, n - 1);
        lemma_with(one, list[n - 1]);
        assert forall|j: int| 0 <= j < n implies annotated_slot(
            after,
            types.len() + j,
            Some(#[trigger] list[j]),
        ) by {
            if j < n - 1 {
                assert(annotated_slot(one, types.len() + j, Some(list[j])));
                assert(one.has(types.len() + j) && fixed(one, types.len() + j));
            }
        }
    }
}

proof fn lemma_known_as(known: Known, name: Seq<char>, function: ExternView)
    requires
        settled(known),
        closed(function),
    ensures
        known_as(extern_known(known, name, function), name, function),
{
    let count = function.params.len() as int;
    let one = with_known(known.types, function.params, count);
    let after = extern_known(known, name, function);
    lemma_extern(known, name, function);
    lemma_slots(known.types, function.params, count);
    lemma_with(one, function.ret);
    assert forall|j: int| 0 <= j < function.params.len() implies annotated_slot(
        after.types,
        after.env.signatures[name].params[j],
        Some(#[trigger] function.params[j]),
    ) by {
        assert(annotated_slot(one, known.types.len() + j, Some(function.params[j])));
        assert(one.has(known.types.len() + j) && fixed(one, known.types.len() + j));
    }
    let none = Seq::<Capability>::empty();
    law_union(none, function.capabilities);
    assert forall|rank: u32| #[trigger]
        has_rank(set_of(function.capabilities), rank) <==> exists|i: int|
            0 <= i < function.capabilities.len() && (#[trigger] function.capabilities[i]).rank
                == rank by {
        assert(has_rank(union_of(none, function.capabilities), rank) <==> has_rank(none, rank)
            || has_rank(function.capabilities, rank));
    }
}

proof fn lemma_known_kept(known: Known, after: Known, name: Seq<char>, function: ExternView)
    requires
        known_as(known, name, function),
        kept(after.types, known.types),
        after.env.signatures.contains_key(name),
        after.env.signatures[name] == known.env.signatures[name],
    ensures
        known_as(after, name, function),
{
    let signature = known.env.signatures[name];
    assert forall|j: int| 0 <= j < function.params.len() implies annotated_slot(
        after.types,
        signature.params[j],
        Some(#[trigger] function.params[j]),
    ) by {
        assert(annotated_slot(known.types, signature.params[j], Some(function.params[j])));
        assert(known.types.has(signature.params[j]) && fixed(known.types, signature.params[j]));
    }
    assert(known.types.has(signature.ret) && fixed(known.types, signature.ret));
}

/// The names that are known are those of the first `n` imports.
spec fn holds_imports(env: Env, items: Seq<TopLevelItemView>, n: int) -> bool {
    forall|name: Seq<char>| #[trigger]
        env.signatures.contains_key(name) <==> exists|k: int|
            0 <= k < n && imports_name(#[trigger] items[k], name)
}

/// What is known of the imports before is still known.
spec fn grown(known: Known, after: Known) -> bool {
    &&& settled(after)
    &&& kept(after.types, known.types)
    &&& after.env.structs == known.env.structs
    &&& after.env.enums == known.env.enums
    &&& after.env.variants == known.env.variants
    &&& forall|name: Seq<char>| #[trigger]
        known.env.signatures.contains_key(name) ==> after.env.signatures.contains_key(name)
            && after.env.signatures[name] == known.env.signatures[name]
}

proof fn lemma_grown_twice(known: Known, one: Known, after: Known)
    requires
        grown(known, one),
        grown(one, after),
    ensures
        grown(known, after),
{
    lemma_kept_twice(known.types, one.types, after.types);
    assert forall|name: Seq<char>| #[trigger]
        known.env.signatures.contains_key(name) implies after.env.signatures.contains_key(name)
        && after.env.signatures[name] == known.env.signatures[name] by {
        assert(one.env.signatures.contains_key(name));
    }
}

proof fn lemma_imports_known(
    platform: PlatformView,
    known: Known,
    items: Seq<TopLevelItemView>,
    i: int,
)
    requires
        0 <= i <= items.len(),
        settled(known),
        holds_imports(known.env, items, i),
    ensures
        ({
            let (after, outcome) = imports_registered(platform, known, items, i);
            &&& outcome is Ok <==> forall|k: int|
                i <= k < items.len() ==> #[trigger] import_in_order(platform, items, k)
            &&& outcome is Ok ==> {
                &&& grown(known, after)
                &&& holds_imports(after.env, items, items.len() as int)
                &&& forall|k: int, m: int|
                    i <= k < items.len() && #[trigger] resolves(platform, items[k], m) && closed(
                        platform.externs[m],
                    ) ==> known_as(after, items[k]->Import_0.name, platform.externs[m])
            }
        }),
    decreases items.len() - i,
{
    let (after, outcome) = imports_registered(platform, known, items, i);
    if i < items.len() {
        match items[i] {
            TopLevelItemView::Import(import) => {
                let externs = platform.externs;
                law_import_target(externs, import.path, import.name);
                let (next, first) = import_registered(platform, known, import);
                let target = import_target(externs, import.path, import.name, 0);
                if target is Some {
                    let m = choose|m: int| #[trigger]
                        offers(externs, import.path, import.name, m) && externs[m]
                            == target->Some_0;
                    assert(externs[m].path == import.path && externs[m].name == import.name);
                }
                assert(first is Ok <==> import_in_order(platform, items, i)) by {
                    if known.env.signatures.contains_key(import.name) {
                        let k = choose|k: int|
                            0 <= k < i && imports_name(#[trigger] items[k], import.name);
                        assert(imports_name(items[k], import.name));
                    }
                }
                if first is Ok {
                    let function = target->Some_0;
                    lemma_extern(known, import.name, function);
                    assert(holds_imports(next.env, items, i + 1)) by {
                        assert forall|name: Seq<char>| #[trigger]
                            next.env.signatures.contains_key(name) <==> exists|k: int|
                            0 <= k < i + 1 && imports_name(#[trigger] items[k], name) by {
                            if name == import.name {
                                assert(imports_name(items[i], name));
                            } else if known.env.signatures.contains_key(name) {
                                let k = choose|k: int|
                                    0 <= k < i && imports_name(#[trigger] items[k], name);
                                assert(imports_name(items[k], name));
                            }
                        }
                    }
                    lemma_imports_known(platform, next, items, i + 1);
                    if outcome is Ok {
                        assert(grown(known, next));
                        lemma_grown_twice(known, next, after);
                        if closed(function) {
                            lemma_known_as(known, import.name, function);
                            lemma_known_kept(next, after, import.name, function);
                        }
                        assert forall|k: int, m: int|
                            i <= k < items.len() && #[trigger] resolves(platform, items[k], m) && closed(
                                externs[m],
                            ) implies known_as(after, items[k]->Import_0.name, externs[m]) by {
                            if k == i {
                                let l = choose|l: int| #[trigger]
                                    offers(externs, import.path, import.name, l) && externs[l]
                                        == function;
                                assert(l == m);
                            }
                        }
                    }
                } else {
                    assert(!import_in_order(platform, items, i));
                }
            },
            _ => {
                assert(holds_imports(known.env, items, i + 1)) by {
                    assert forall|name: Seq<char>| #[trigger]
                        known.env.signatures.contains_key(name) <==> exists|k: int|
                        0 <= k < i + 1 && imports_name(#[trigger] items[k], name) by {
                        if known.env.signatures.contains_key(name) {
                            let k = choose|k: int|
                                0 <= k < i && imports_name(#[trigger] items[k], name);
                            assert(imports_name(items[k], name));
                        }
                    }
                }
                assert(import_in_order(platform, items, i));
                lemma_imports_known(platform, known, items, i + 1);
            },
        }
    }
}

/// Valid types are so by the structs and the enums that are known.
proof fn lemma_same_types(a: Env, b: Env, ty: TypeView, params: Seq<Seq<char>>)
    requires
        a.structs == b.structs,
        a.enums == b.enums,
    ensures
        valid(a, ty, params) == valid(b, ty, params),
    decreases ty,
{
    match ty {
        TypeView::Apply { args, .. } => {
            assert forall|i: int| 0 <= i < args.len() implies valid(a, #[trigger] args[i], params)
                == valid(b, args[i], params) by {
                lemma_same_types(a, b, args[i], params);
            }
        },
        TypeView::Function(function) => {
            assert forall|i: int| 0 <= i < function.params.len() implies valid(
                a,
                #[trigger] function.params[i],
                params,
            ) == valid(b, function.params[i], params) by {
                lemma_same_types(a, b, function.params[i], params);
            }
            lemma_same_types(a, b, *function.ret, params);
        },
        _ => {},
    }
}

/// The annotation is there, and is a valid type without type parameters.
pub open spec fn annotated(env: Env, annotation: Option<TypeView>) -> bool {
    annotation matches Some(ty) && valid(env, ty, Seq::empty())
}

/// The header of a function is in order: each parameter and the result have a valid type, and a
/// function that declares capabilities is marked.
pub open spec fn header_in_order(env: Env, function: FunctionView) -> bool {
    &&& forall|j: int|
        0 <= j < function.params.len() ==> annotated(env, (#[trigger] function.params[j]).ty)
    &&& annotated(env, function.return_annotation)
    &&& (function.required matches Some(list) && list.len() > 0) ==> function.name.len() > 0
        && function.name.last() == '!'
}

/// The name of the function is neither that of an import nor that of a function before it.
pub open spec fn new_function(program: ProgramView, k: int) -> bool {
    let functions = functions_of(program);
    &&& forall|i: int|
        0 <= i < program.items.len() ==> !imports_name(
            #[trigger] program.items[i],
            functions[k].name,
        )
    &&& forall|j: int| 0 <= j < k ==> (#[trigger] functions[j]).name != functions[k].name
}

proof fn lemma_params_annotated(env: Env, base: Env, types: Types, function: FunctionView, i: int)
    requires
        0 <= i <= function.params.len(),
        env.structs == base.structs,
        env.enums == base.enums,
    ensures
        params_registered(env, types, function, i).1 is Ok <==> forall|j: int|
            i <= j < function.params.len() ==> annotated(base, (#[trigger] function.params[j]).ty),
    decreases function.params.len() - i,
{
    if i < function.params.len() {
        if let Some(ty) = function.params[i].ty {
            law_valid(env, ty, Seq::empty());
            lemma_same_types(env, base, ty, Seq::empty());
            lemma_params_annotated(env, base, types.with(Some(ty)), function, i + 1);
            assert(annotated(base, function.params[i].ty) <==> type_validated(
                env,
                ty,
                Seq::empty(),
            ) is Ok);
        }
    }
}

pub proof fn lemma_no_capability(list: Seq<Capability>)
    ensures
        set_of(list).len() > 0 <==> list.len() > 0,
{
    let none = Seq::<Capability>::empty();
    law_union(none, list);
    if list.len() > 0 {
        assert(has_rank(list, list[0].rank));
        assert(has_rank(union_of(none, list), list[0].rank));
    } else if set_of(list).len() > 0 {
        let rank = set_of(list)[0].rank;
        assert(has_rank(union_of(none, list), rank));
        assert(has_rank(none, rank) || has_rank(list, rank));
    }
}

proof fn lemma_function(known: Known, base: Env, function: FunctionView)
    requires
        known.env.structs == base.structs,
        known.env.enums == base.enums,
    ensures
        function_registered(known, function).1 is Ok <==> !known.env.signatures.contains_key(
            function.name,
        ) && header_in_order(base, function),
        function_registered(known, function).1 is Ok ==> {
            let after = function_registered(known, function).0.env;
            &&& after.structs == base.structs
            &&& after.enums == base.enums
            &&& after.variants == known.env.variants
            &&& forall|name: Seq<char>| #[trigger]
                after.signatures.contains_key(name) <==> known.env.signatures.contains_key(name)
                    || name == function.name
        },
{
    lemma_params_annotated(known.env, base, known.types, function, 0);
    if let Some(ty) = function.return_annotation {
        law_valid(known.env, ty, Seq::empty());
        lemma_same_types(known.env, base, ty, Seq::empty());
    }
    if let Some(list) = function.required {
        lemma_no_capability(list);
    }
}

proof fn lemma_functions_known(program: ProgramView, known: Known, base: Env, k: int)
    requires
        0 <= k <= functions_of(program).len(),
        known.env.structs == base.structs,
        known.env.enums == base.enums,
        forall|name: Seq<char>| #[trigger]
            known.env.signatures.contains_key(name) <==> (exists|i: int|
                0 <= i < program.items.len() && imports_name(#[trigger] program.items[i], name))
                || exists|j: int| 0 <= j < k && (#[trigger] functions_of(program)[j]).name == name,
    ensures
        functions_registered(known, functions_of(program), k).1 is Ok <==> forall|j: int|
            k <= j < functions_of(program).len() ==> new_function(program, j) && header_in_order(
                base,
                #[trigger] functions_of(program)[j],
            ),
        functions_registered(known, functions_of(program), k).1 is Ok ==> {
            let after = functions_registered(known, functions_of(program), k).0.env;
            &&& after.structs == base.structs
            &&& after.enums == base.enums
            &&& after.variants == known.env.variants
        },
    decreases functions_of(program).len() - k,
{
    let functions = functions_of(program);
    if k < functions.len() {
        let function = functions[k];
        lemma_function(known, base, function);
        assert(new_function(program, k) <==> !known.env.signatures.contains_key(function.name)) by {
            if known.env.signatures.contains_key(function.name) {
                if exists|i: int|
                    0 <= i < program.items.len() && imports_name(
                        #[trigger] program.items[i],
                        function.name,
                    ) {
                    let i = choose|i: int|
                        0 <= i < program.items.len() && imports_name(
                            #[trigger] program.items[i],
                            function.name,
                        );
                    assert(imports_name(program.items[i], functions[k].name));
                } else {
                    let j = choose|j: int|
                        0 <= j < k && (#[trigger] functions[j]).name == function.name;
                    assert(functions[j].name == functions[k].name);
                }
            }
        }
        let (next, first) = function_registered(known, function);
        if first is Ok {
            assert forall|name: Seq<char>| #[trigger]
                next.env.signatures.contains_key(name) <==> (exists|i: int|
                0 <= i < program.items.len() && imports_name(#[trigger] program.items[i], name))
                || exists|j: int| 0 <= j < k + 1 && (#[trigger] functions[j]).name == name by {
                if name == function.name {
                    assert(functions[k].name == name);
                } else if exists|j: int| 0 <= j < k && (#[trigger] functions[j]).name == name {
                    let j = choose|j: int| 0 <= j < k && (#[trigger] functions[j]).name == name;
                    assert(functions[j].name == name);
                }
            }
            lemma_functions_known(program, next, base, k + 1);
        } else {
            assert(!(new_function(program, k) && header_in_order(base, functions[k])));
        }
    }
}

/// The declarations of a program are accepted exactly where each type is new and valid, each import
/// fits and is new, and each function is new and has a header that is in order. Then what is known
/// are the types as they are declared, and each import by the types, the effects and the
/// capabilities of the function that the platform offers, where no type parameter is open in them.
pub proof fn law_declarations(program: ProgramView, platform: PlatformView)
    ensures
        ({
            let items = program.items;
            let types = types_registered(nothing(), items).0;
            let functions = functions_of(program);
            let (known, outcome) = program_registered(program, platform);
            &&& outcome is Ok <==> {
                &&& forall|k: int| 0 <= k < items.len() ==> #[trigger] new_type(items, k)
                &&& forall|k: int| 0 <= k < items.len() ==> valid_type(types, #[trigger] items[k])
                &&& forall|k: int|
                    0 <= k < items.len() ==> #[trigger] import_in_order(platform, items, k)
                &&& forall|k: int|
                    0 <= k < functions.len() ==> new_function(program, k) && header_in_order(
                        types,
                        #[trigger] functions[k],
                    )
            }
            &&& outcome is Ok ==> {
                &&& holds(known.env, items, items.len() as int)
                &&& forall|k: int, m: int|
                    0 <= k < items.len() && #[trigger] resolves(platform, items[k], m) && closed(
                        platform.externs[m],
                    ) ==> known_as(known, items[k]->Import_0.name, platform.externs[m])
            }
        }),
{
    let items = program.items;
    let functions = functions_of(program);
    let (env, outcome) = types_registered(nothing(), items);
    law_types(items);
    if outcome is Ok {
        let first = Known { types: Store::empty(), env };
        lemma_items_signatures(
            with_variants(nothing(), with_builtins(nothing().variants)),
            items,
            0,
        );
        assert(env.signatures =~= Map::<Seq<char>, Signature>::empty());
        assert(settled(first));
        assert(holds_imports(env, items, 0));
        lemma_imports_known(platform, first, items, 0);
        let (second, result) = imports_registered(platform, first, items, 0);
        if result is Ok {
            lemma_functions_known(program, second, env, 0);
            let (known, last) = functions_registered(second, functions, 0);
            if last is Ok {
                lemma_functions_registered(second, functions, 0);
                assert(known.env.structs == env.structs && known.env.enums == env.enums);
                assert(known.env.variants == env.variants);
                assert forall|k: int, m: int|
                    0 <= k < items.len() && #[trigger] resolves(platform, items[k], m) && closed(
                        platform.externs[m],
                    ) implies known_as(known, items[k]->Import_0.name, platform.externs[m]) by {
                    lemma_known_kept(
                        second,
                        known,
                        items[k]->Import_0.name,
                        platform.externs[m],
                    );
                }
            }
        }
    }
}

} // verus!
