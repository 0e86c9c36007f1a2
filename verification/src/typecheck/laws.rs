//! What the checker promises of the programs that it accepts.
use vstd::prelude::*;

use crate::typecheck::check::lemma_entry;
use crate::ast::{
    functions_of, EnumDeclView, FunctionTypeView, FunctionView, ProgramView, TopLevelItemView,
    TypeView,
};
use crate::capability::{ascending, has_rank, law_union, set_of, within, Capability};
use crate::platform::{import_target, ExternView, PlatformView};
use crate::slots::{scope_within, Store};
use crate::text::{ends_with_bang, quoted};
use crate::typecheck::checker::signature_sane;
use crate::typecheck::effects::{block_calls, covered, lemma_block_effects, Names};
use crate::typecheck::model::{
    all_resolved, block_checked, function_type_validated, type_validated, types_validated, unified,
    Capabilities, Env, Info, Scope, Types, Variant,
};
use crate::typecheck::needs::{declares, lemma_block_needs};
use crate::typecheck::program::{
    declared_capabilities, effects_checked, entry_count, entry_index, extern_known,
    function_checked, function_registered, function_typed, functions_checked, functions_registered,
    functions_typed, import_registered, imports_registered, is_entry, item_declared, items_declared,
    needs_of, params_registered, params_scoped, program_checked, program_registered,
    types_registered, variants_declared, with_builtins, with_known, with_variants, CheckMode, Known,
    Needs,
};
use crate::typecheck::registration::lemma_declared;
use crate::typecheck::stability::{
    all_known, fixed, kept, lemma_block, lemma_kept_twice, lemma_ready, lemma_unified, lemma_with,
    ready,
};
use crate::typecheck::substitution::{any_generic, function_is_generic, is_generic};
use crate::typecheck::typed::{TypedFunctionView, TypedProgramView};

verus! {

/// A type that is valid without type parameters in scope has none.
pub proof fn law_valid_closed(env: Env, ty: TypeView)
    requires
        type_validated(env, ty, Seq::empty()) is Ok,
    ensures
        !is_generic(ty),
    decreases ty, 0int,
{
    match ty {
        TypeView::Apply { name, args } => lemma_valid_list_closed(env, args, args.len() as int),
        TypeView::Function(function) => lemma_valid_function_closed(env, function),
        _ => {},
    }
}

pub proof fn lemma_valid_function_closed(env: Env, function: FunctionTypeView)
    requires
        function_type_validated(env, function, Seq::empty()) is Ok,
    ensures
        !function_is_generic(function),
    decreases function, 0int,
{
    lemma_valid_list_closed(env, function.params, function.params.len() as int);
    law_valid_closed(env, *function.ret);
}

pub proof fn lemma_valid_list_closed(env: Env, list: Seq<TypeView>, n: int)
    requires
        0 <= n <= list.len(),
        types_validated(env, list, Seq::empty(), 0) is Ok,
    ensures
        !any_generic(list, n),
    decreases list, n,
{
    if n > 0 {
        lemma_valid_list_closed(env, list, n - 1);
        lemma_valid_element(env, list, 0, n - 1);
        law_valid_closed(env, list[n - 1]);
    }
}

pub proof fn lemma_valid_element(env: Env, list: Seq<TypeView>, i: int, k: int)
    requires
        0 <= i <= k < list.len(),
        types_validated(env, list, Seq::empty(), i) is Ok,
    ensures
        type_validated(env, list[k], Seq::empty()) is Ok,
    decreases list.len() - i,
{
    if i < k {
        lemma_valid_element(env, list, i + 1, k);
    }
}

/// What is known before the first body is checked.
pub open spec fn settled(known: Known) -> bool {
    &&& ready(known.env, known.types, Map::empty())
    &&& all_known(known.types)
}

pub proof fn lemma_variants_signatures(env: Env, decl: EnumDeclView, i: int)
    ensures
        variants_declared(env, decl, i).0.signatures == env.signatures,
    decreases decl.variants.len() - i,
{
    if i < decl.variants.len() && !env.variants.contains_key(decl.variants[i].name) {
        let variant = Variant {
            enum_name: decl.name,
            enum_type_params: decl.type_params,
            payload: decl.variants[i].payload,
        };
        lemma_variants_signatures(
            with_variants(env, env.variants.insert(decl.variants[i].name, variant)),
            decl,
            i + 1,
        );
    }
}

pub proof fn lemma_items_signatures(env: Env, items: Seq<TopLevelItemView>, i: int)
    ensures
        items_declared(env, items, i).0.signatures == env.signatures,
    decreases items.len() - i,
{
    if i < items.len() {
        if let TopLevelItemView::Enum(decl) = items[i] {
            lemma_variants_signatures(env, decl, 0);
        }
        let (next, outcome) = item_declared(env, items[i]);
        if outcome is Ok {
            lemma_items_signatures(next, items, i + 1);
        }
    }
}

pub proof fn lemma_with_known(types: Types, list: Seq<TypeView>, n: int)
    requires
        types.wf(),
        0 <= n <= list.len(),
    ensures
        kept(with_known(types, list, n), types),
        with_known(types, list, n).len() == types.len() + n,
    decreases n,
{
    if n > 0 {
        lemma_with_known(types, list, n - 1);
        let one = with_known(types, list, n - 1);
        lemma_with(one, list[n - 1]);
        lemma_kept_twice(types, one, one.with(Some(list[n - 1])));
    }
}

pub proof fn lemma_set_ascending(list: Seq<Capability>)
    ensures
        ascending(set_of(list)),
{
    law_union(Seq::empty(), list);
}

pub proof fn lemma_extern(known: Known, name: Seq<char>, function: ExternView)
    requires
        settled(known),
    ensures
        settled(extern_known(known, name, function)),
        kept(extern_known(known, name, function).types, known.types),
{
    let count = function.params.len() as int;
    let one = with_known(known.types, function.params, count);
    lemma_with_known(known.types, function.params, count);
    lemma_with(one, function.ret);
    let after = extern_known(known, name, function);
    lemma_kept_twice(known.types, one, after.types);
    lemma_set_ascending(function.capabilities);
    lemma_declared(
        known.env.signatures,
        known.types,
        after.types,
        name,
        after.env.signatures[name],
    );
}

pub proof fn lemma_imports(
    platform: PlatformView,
    known: Known,
    items: Seq<TopLevelItemView>,
    i: int,
)
    requires
        settled(known),
    ensures
        settled(imports_registered(platform, known, items, i).0),
    decreases items.len() - i,
{
    if i < items.len() {
        if let TopLevelItemView::Import(import) = items[i] {
            if let Some(function) = import_target(platform.externs, import.path, import.name, 0) {
                lemma_extern(known, import.name, function);
            }
            let (next, outcome) = import_registered(platform, known, import);
            if outcome is Ok {
                lemma_imports(platform, next, items, i + 1);
            }
        } else {
            lemma_imports(platform, known, items, i + 1);
        }
    }
}

/// The slot has the annotated type, which has no open parameters.
pub open spec fn annotated_slot(types: Types, id: int, annotation: Option<TypeView>) -> bool {
    &&& annotation matches Some(ty) && !is_generic(ty)
    &&& types.has(id)
    &&& types.value_of(id) == annotation
}

/// The function has a signature of its annotated types.
pub open spec fn signed(known: Known, function: FunctionView) -> bool {
    let signature = known.env.signatures[function.name];
    &&& known.env.signatures.contains_key(function.name)
    &&& signature.params.len() == function.params.len()
    &&& forall|j: int|
        0 <= j < function.params.len() ==> annotated_slot(
            known.types,
            signature.params[j],
            (#[trigger] function.params[j]).ty,
        )
    &&& annotated_slot(known.types, signature.ret, function.return_annotation)
    &&& signature.effectful == ends_with_bang(function.name)
    &&& signature.declared == declared_capabilities(function)
}

pub proof fn lemma_signed_kept(known: Known, after: Known, function: FunctionView)
    requires
        signed(known, function),
        kept(after.types, known.types),
        after.env.signatures.contains_key(function.name),
        after.env.signatures[function.name] == known.env.signatures[function.name],
    ensures
        signed(after, function),
{
    let signature = known.env.signatures[function.name];
    assert forall|j: int| 0 <= j < function.params.len() implies annotated_slot(
        after.types,
        signature.params[j],
        (#[trigger] function.params[j]).ty,
    ) by {
        assert(known.types.has(signature.params[j]) && fixed(known.types, signature.params[j]));
    }
    assert(known.types.has(signature.ret) && fixed(known.types, signature.ret));
}

pub proof fn lemma_params_registered(env: Env, types: Types, function: FunctionView, i: int)
    requires
        types.wf(),
        0 <= i <= function.params.len(),
    ensures
        params_registered(env, types, function, i).1 is Ok ==> {
            let after = params_registered(env, types, function, i).0;
            &&& kept(after, types)
            &&& after.len() == types.len() + function.params.len() - i
            &&& forall|j: int|
                i <= j < function.params.len() ==> annotated_slot(
                    after,
                    types.len() + j - i,
                    (#[trigger] function.params[j]).ty,
                )
        },
    decreases function.params.len() - i,
{
    if i < function.params.len() {
        if let Some(ty) = function.params[i].ty {
            if type_validated(env, ty, Seq::empty()) is Ok {
                law_valid_closed(env, ty);
                let one = types.with(Some(ty));
                lemma_with(types, ty);
                lemma_params_registered(env, one, function, i + 1);
                if params_registered(env, types, function, i).1 is Ok {
                    let after = params_registered(env, types, function, i).0;
                    lemma_kept_twice(types, one, after);
                    assert(one.has(types.len()) && fixed(one, types.len()));
                    assert forall|j: int| i <= j < function.params.len() implies annotated_slot(
                        after,
                        types.len() + j - i,
                        (#[trigger] function.params[j]).ty,
                    ) by {}
                }
            }
        }
    }
}

pub proof fn lemma_function_registered(known: Known, function: FunctionView)
    requires
        settled(known),
        function_registered(known, function).1 is Ok,
    ensures
        settled(function_registered(known, function).0),
        kept(function_registered(known, function).0.types, known.types),
        signed(function_registered(known, function).0, function),
        function_registered(known, function).0.env.signatures.dom()
            == known.env.signatures.dom().insert(function.name),
{
    let after = function_registered(known, function).0;
    let (one, _) = params_registered(known.env, known.types, function, 0);
    lemma_params_registered(known.env, known.types, function, 0);
    let ty = function.return_annotation->Some_0;
    law_valid_closed(known.env, ty);
    lemma_with(one, ty);
    lemma_kept_twice(known.types, one, after.types);
    let signature = after.env.signatures[function.name];
    if let Some(list) = function.required {
        lemma_set_ascending(list);
    }
    assert(after.types.has(signature.ret));
    assert forall|j: int| 0 <= j < function.params.len() implies annotated_slot(
        after.types,
        signature.params[j],
        (#[trigger] function.params[j]).ty,
    ) by {
        assert(annotated_slot(one, known.types.len() + j, function.params[j].ty));
        assert(one.has(known.types.len() + j) && fixed(one, known.types.len() + j));
    }
    assert forall|j: int| 0 <= j < signature.params.len() implies after.types.has(
        #[trigger] signature.params[j],
    ) by {
        assert(annotated_slot(after.types, signature.params[j], function.params[j].ty));
    }
    lemma_declared(
        known.env.signatures,
        known.types,
        after.types,
        function.name,
        signature,
    );
    assert(after.env.signatures.dom() =~= known.env.signatures.dom().insert(function.name));
}

/// The names of the functions from `i` on differ, and none is known before.
pub open spec fn all_new(known: Known, functions: Seq<FunctionView>, i: int) -> bool {
    &&& forall|k: int|
        i <= k < functions.len() ==> !known.env.signatures.contains_key(
            (#[trigger] functions[k]).name,
        )
    &&& forall|j: int, k: int|
        i <= j < k < functions.len() ==> (#[trigger] functions[j]).name != (
        #[trigger] functions[k]).name
}

pub proof fn lemma_functions_registered(known: Known, functions: Seq<FunctionView>, i: int)
    requires
        settled(known),
        0 <= i <= functions.len(),
        functions_registered(known, functions, i).1 is Ok,
    ensures
        ({
            let after = functions_registered(known, functions, i).0;
            &&& settled(after)
            &&& kept(after.types, known.types)
            &&& forall|name: Seq<char>| #[trigger]
                known.env.signatures.contains_key(name) ==> after.env.signatures.contains_key(name)
                    && after.env.signatures[name] == known.env.signatures[name]
            &&& forall|k: int| i <= k < functions.len() ==> signed(after, #[trigger] functions[k])
            &&& all_new(known, functions, i)
        }),
    decreases functions.len() - i,
{
    if i < functions.len() {
        let next = function_registered(known, functions[i]).0;
        let after = functions_registered(known, functions, i).0;
        lemma_function_registered(known, functions[i]);
        lemma_functions_registered(next, functions, i + 1);
        lemma_kept_twice(known.types, next.types, after.types);
        assert(next.env.signatures.contains_key(functions[i].name));
        lemma_signed_kept(next, after, functions[i]);
        assert forall|name: Seq<char>| #[trigger]
            known.env.signatures.contains_key(name) implies after.env.signatures.contains_key(name)
            && after.env.signatures[name] == known.env.signatures[name] by {
            assert(next.env.signatures.contains_key(name));
        }
        assert forall|k: int| i <= k < functions.len() implies !known.env.signatures.contains_key(
            (#[trigger] functions[k]).name,
        ) by {
            if k > i {
                assert(!next.env.signatures.contains_key(functions[k].name));
            }
        }
        assert forall|j: int, k: int| i <= j < k < functions.len() implies (
        #[trigger] functions[j]).name != (#[trigger] functions[k]).name by {
            if j == i {
                assert(!next.env.signatures.contains_key(functions[k].name));
            }
        }
    }
}

/// What is declared in a program: each slot has a type, each function has a signature of its
/// annotated types, and the functions have different names.
pub proof fn law_registered(program: ProgramView, platform: PlatformView)
    requires
        program_registered(program, platform).1 is Ok,
    ensures
        ({
            let known = program_registered(program, platform).0;
            let functions = functions_of(program);
            &&& settled(known)
            &&& forall|k: int| 0 <= k < functions.len() ==> signed(known, #[trigger] functions[k])
            &&& forall|j: int, k: int|
                0 <= j < k < functions.len() ==> (#[trigger] functions[j]).name != (
                #[trigger] functions[k]).name
        }),
{
    let none = Env {
        structs: Map::empty(),
        enums: Map::empty(),
        variants: Map::empty(),
        signatures: Map::empty(),
    };
    let (env, _) = types_registered(none, program.items);
    lemma_items_signatures(
        with_variants(none, with_builtins(none.variants)),
        program.items,
        0,
    );
    let first = Known { types: Store::empty(), env };
    lemma_imports(platform, first, program.items, 0);
    let (second, _) = imports_registered(platform, first, program.items, 0);
    lemma_functions_registered(second, functions_of(program), 0);
}

/// The names of the first `n` parameters.
pub open spec fn param_names(function: FunctionView, n: int) -> Names
    decreases n,
{
    if n <= 0 {
        Set::empty()
    } else {
        param_names(function, n - 1).insert(function.params[n - 1].name)
    }
}

/// The body of the function calls another function by its name.
pub open spec fn body_calls(env: Env, function: FunctionView, callee: Seq<char>) -> bool {
    block_calls(
        env,
        param_names(function, function.params.len() as int),
        function.body,
        callee,
    )
}

pub proof fn lemma_params_scoped(
    scope: Scope,
    function: FunctionView,
    params: Seq<int>,
    i: int,
    types: Types,
)
    requires
        0 <= i <= function.params.len(),
        params.len() == function.params.len(),
        scope_within(scope, types),
        forall|k: int| 0 <= k < params.len() ==> types.has(#[trigger] params[k]),
        scope.dom() == param_names(function, i),
    ensures
        params_scoped(scope, function, params, i) matches Ok(all) ==> scope_within(all, types)
            && all.dom() == param_names(function, function.params.len() as int),
    decreases function.params.len() - i,
{
    if i < function.params.len() && !scope.contains_key(function.params[i].name) {
        let next = scope.insert(function.params[i].name, params[i]);
        assert(next.dom() =~= param_names(function, i + 1));
        lemma_params_scoped(next, function, params, i + 1, types);
    }
}

/// What holds of a function and the capabilities found for it.
pub open spec fn contained(env: Env, function: FunctionView, capabilities: Capabilities) -> bool {
    let signature = env.signatures[function.name];
    &&& signature.declared matches Some(declared) ==> capabilities == declared
    &&& forall|callee: Seq<char>|
        env.signatures.contains_key(callee) && #[trigger] body_calls(env, function, callee)
            ==> covered(
            env.signatures[callee],
            Info { ty: 0, effectful: signature.effectful, capabilities },
        )
    &&& signature.declared is None ==> forall|rank: u32| #[trigger]
        has_rank(capabilities, rank) ==> needed(env, function, rank)
}

/// A function that the body calls declares the capability of the rank.
pub open spec fn needed(env: Env, function: FunctionView, rank: u32) -> bool {
    exists|callee: Seq<char>| #[trigger]
        body_calls(env, function, callee) && declares(env, callee, rank)
}

pub proof fn lemma_within(a: Capabilities, b: Capabilities, c: Capabilities)
    requires
        within(a, b),
        within(b, c),
    ensures
        within(a, c),
{
    assert forall|i: int| 0 <= i < a.len() implies has_rank(c, (#[trigger] a[i]).rank) by {
        assert(has_rank(b, a[i].rank));
        let j = choose|j: int| 0 <= j < b.len() && (#[trigger] b[j]).rank == a[i].rank;
        assert(has_rank(c, b[j].rank));
    }
}

pub proof fn lemma_function_checked(known: Known, types: Types, function: FunctionView)
    requires
        ready(known.env, types, Map::empty()),
        known.env.signatures.contains_key(function.name),
        known.env.signatures[function.name].params.len() == function.params.len(),
    ensures
        kept(function_checked(known.env, types, function).0, types),
        function_checked(known.env, types, function).1 matches Ok(capabilities) ==> contained(
            known.env,
            function,
            capabilities,
        ),
{
    let env = known.env;
    let signature = env.signatures[function.name];
    assert(signature_sane(signature, types));
    assert(Map::<Seq<char>, int>::empty().dom() =~= param_names(function, 0));
    lemma_params_scoped(Map::empty(), function, signature.params, 0, types);
    if let Ok(scope) = params_scoped(Map::empty(), function, signature.params, 0) {
        lemma_block(env, types, scope, function.body);
        let (one, result) = block_checked(env, types, scope, function.body);
        if let Ok(body) = result {
            lemma_unified(one, signature.ret, body.ty);
            let (two, outcome) = unified(one, signature.ret, body.ty);
            lemma_kept_twice(types, one, two);
            if outcome is Ok {
                if let Ok(capabilities) = effects_checked(function.name, signature, body) {
                    assert forall|callee: Seq<char>|
                        env.signatures.contains_key(callee) && #[trigger] body_calls(
                            env,
                            function,
                            callee,
                        ) implies covered(
                        env.signatures[callee],
                        Info { ty: 0, effectful: signature.effectful, capabilities },
                    ) by {
                        lemma_block_effects(env, types, scope, function.body, callee);
                        if let Some(declared) = env.signatures[callee].declared {
                            if signature.declared is Some {
                                lemma_within(declared, body.capabilities, capabilities);
                            }
                        }
                    }
                    if signature.declared is None {
                        assert forall|rank: u32| #[trigger]
                            has_rank(capabilities, rank) implies needed(env, function, rank) by {
                            let callee = lemma_block_needs(env, types, scope, function.body, rank);
                            assert(body_calls(env, function, callee));
                        }
                    }
                }
            }
        }
    }
}

pub proof fn lemma_functions_checked(
    known: Known,
    types: Types,
    functions: Seq<FunctionView>,
    i: int,
    needs: Needs,
)
    requires
        ready(known.env, types, Map::empty()),
        0 <= i <= functions.len(),
        forall|k: int| 0 <= k < functions.len() ==> signed(known, #[trigger] functions[k]),
        forall|j: int, k: int|
            0 <= j < k < functions.len() ==> (#[trigger] functions[j]).name != (
            #[trigger] functions[k]).name,
        forall|k: int|
            0 <= k < i ==> needs.contains_key((#[trigger] functions[k]).name) && contained(
                known.env,
                functions[k],
                needs[functions[k].name],
            ),
    ensures
        kept(functions_checked(known.env, types, functions, i, needs).0, types),
        functions_checked(known.env, types, functions, i, needs).1 matches Ok(all) ==> forall|
            k: int,
        |
            0 <= k < functions.len() ==> all.contains_key((#[trigger] functions[k]).name)
                && contained(known.env, functions[k], all[functions[k].name]),
    decreases functions.len() - i,
{
    if i < functions.len() {
        assert(signed(known, functions[i]));
        lemma_function_checked(known, types, functions[i]);
        let (one, result) = function_checked(known.env, types, functions[i]);
        if let Ok(capabilities) = result {
            lemma_ready(known.env, types, Map::empty(), one);
            let more = needs.insert(functions[i].name, capabilities);
            lemma_functions_checked(known, one, functions, i + 1, more);
            lemma_kept_twice(
                types,
                one,
                functions_checked(known.env, one, functions, i + 1, more).0,
            );
        }
    }
}

pub proof fn lemma_all_resolved(types: Types, ids: Seq<int>, i: int, label: Seq<char>)
    requires
        0 <= i <= ids.len(),
        all_known(types),
        forall|k: int| 0 <= k < ids.len() ==> types.has(#[trigger] ids[k]),
    ensures
        all_resolved(types, ids, i, label) matches Ok(list) && list.len() == ids.len() - i && forall|
            k: int,
        |
            0 <= k < list.len() ==> types.value_of(ids[i + k]) == Some(#[trigger] list[k]),
    decreases ids.len() - i,
{
    if i < ids.len() {
        assert(types.has(ids[i]));
        lemma_all_resolved(types, ids, i + 1, label);
        let rest = all_resolved(types, ids, i + 1, label)->Ok_0;
        let list = all_resolved(types, ids, i, label)->Ok_0;
        assert forall|k: int| 0 <= k < list.len() implies types.value_of(ids[i + k]) == Some(
            #[trigger] list[k],
        ) by {
            if k > 0 {
                assert(list[k] == rest[k - 1]);
            }
        }
    }
}

/// The types that the checker reports for a function are those of its annotations.
pub open spec fn reported(function: FunctionView, typed: TypedFunctionView) -> bool {
    &&& typed.name == function.name
    &&& typed.params.len() == function.params.len()
    &&& forall|j: int|
        0 <= j < function.params.len() ==> (#[trigger] function.params[j]).ty == Some(
            typed.params[j],
        )
    &&& function.return_annotation == Some(typed.ret)
    &&& typed.effectful == ends_with_bang(function.name)
}

pub proof fn lemma_function_typed(
    known: Known,
    types: Types,
    function: FunctionView,
    needs: Needs,
)
    requires
        settled(known),
        kept(types, known.types),
        signed(known, function),
    ensures
        function_typed(known.env, types, function, needs) matches Ok(typed) && reported(
            function,
            typed,
        ) && typed.capabilities == needs_of(needs, function.name),
{
    let signature = known.env.signatures[function.name];
    let label = quoted("parameter in `"@, function.name, "`"@);
    assert forall|k: int| 0 <= k < signature.params.len() implies types.has(
        #[trigger] signature.params[k],
    ) by {
        assert(annotated_slot(known.types, signature.params[k], function.params[k].ty));
    }
    lemma_all_resolved(types, signature.params, 0, label);
    assert(known.types.has(signature.ret) && fixed(known.types, signature.ret));
    let typed = function_typed(known.env, types, function, needs)->Ok_0;
    assert forall|j: int| 0 <= j < function.params.len() implies (
    #[trigger] function.params[j]).ty == Some(typed.params[j]) by {
        assert(annotated_slot(known.types, signature.params[j], function.params[j].ty));
        assert(known.types.has(signature.params[j]) && fixed(known.types, signature.params[j]));
        assert(types.value_of(signature.params[0 + j]) == Some(typed.params[j]));
    }
}

pub proof fn lemma_functions_typed(
    known: Known,
    types: Types,
    functions: Seq<FunctionView>,
    i: int,
    needs: Needs,
)
    requires
        settled(known),
        kept(types, known.types),
        0 <= i <= functions.len(),
        forall|k: int| 0 <= k < functions.len() ==> signed(known, #[trigger] functions[k]),
    ensures
        functions_typed(known.env, types, functions, i, needs) matches Ok(typed) && typed.len()
            == functions.len() - i && forall|k: int|
            i <= k < functions.len() ==> reported(#[trigger] functions[k], typed[k - i])
                && typed[k - i].capabilities == needs_of(needs, functions[k].name),
    decreases functions.len() - i,
{
    if i < functions.len() {
        assert(signed(known, functions[i]));
        lemma_function_typed(known, types, functions[i], needs);
        lemma_functions_typed(known, types, functions, i + 1, needs);
        let rest = functions_typed(known.env, types, functions, i + 1, needs)->Ok_0;
        let typed = functions_typed(known.env, types, functions, i, needs)->Ok_0;
        assert forall|k: int| i <= k < functions.len() implies reported(
            #[trigger] functions[k],
            typed[k - i],
        ) && typed[k - i].capabilities == needs_of(needs, functions[k].name) by {
            if k > i {
                assert(typed[k - i] == rest[k - (i + 1)]);
            }
        }
    }
}

/// The checker never fails for want of a type: where the bodies of a program pass, the types of
/// all its functions are told.
pub proof fn law_types_told(program: ProgramView, platform: PlatformView)
    requires
        program_registered(program, platform).1 is Ok,
    ensures
        ({
            let known = program_registered(program, platform).0;
            let functions = functions_of(program);
            functions_checked(known.env, known.types, functions, 0, Map::empty()) matches (
                types,
                Ok(needs),
            ) ==> all_known(types) && functions_typed(
                known.env,
                types,
                functions,
                0,
                needs,
            ) is Ok
        }),
{
    let known = program_registered(program, platform).0;
    let functions = functions_of(program);
    law_registered(program, platform);
    lemma_functions_checked(known, known.types, functions, 0, Map::empty());
    if let (types, Ok(needs)) = functions_checked(
        known.env,
        known.types,
        functions,
        0,
        Map::empty(),
    ) {
        lemma_functions_typed(known, types, functions, 0, needs);
    }
}

/// The functions of an accepted program are reported in their order, with the types of their
/// annotations. They have effects exactly where their names say so, and the capabilities that they
/// declare.
pub proof fn law_annotations(
    program: ProgramView,
    platform: PlatformView,
    mode: CheckMode,
    typed: TypedProgramView,
)
    requires
        program_checked(program, platform, mode) == Ok::<TypedProgramView, Seq<char>>(typed),
    ensures
        typed.functions.len() == functions_of(program).len(),
        forall|k: int|
            0 <= k < functions_of(program).len() ==> {
                &&& reported(#[trigger] functions_of(program)[k], typed.functions[k])
                &&& declared_capabilities(functions_of(program)[k]) matches Some(declared)
                    ==> typed.functions[k].capabilities == declared
            },
{
    let known = program_registered(program, platform).0;
    let functions = functions_of(program);
    law_registered(program, platform);
    lemma_functions_checked(known, known.types, functions, 0, Map::empty());
    let (types, result) = functions_checked(known.env, known.types, functions, 0, Map::empty());
    let needs = result->Ok_0;
    lemma_functions_typed(known, types, functions, 0, needs);
    assert forall|k: int| 0 <= k < functions.len() implies {
        &&& reported(#[trigger] functions[k], typed.functions[k])
        &&& declared_capabilities(functions[k]) matches Some(declared)
            ==> typed.functions[k].capabilities == declared
    } by {
        assert(signed(known, functions[k]));
        assert(contained(known.env, functions[k], needs[functions[k].name]));
        assert(typed.functions[k] == typed.functions[k - 0]);
    }
}

/// Effects and capabilities reach the callers: where the body of a function of an accepted program
/// calls a function by its name, the caller has effects if the called function has, and all
/// capabilities that the called function declares.
pub proof fn law_effects(
    program: ProgramView,
    platform: PlatformView,
    mode: CheckMode,
    typed: TypedProgramView,
    k: int,
    callee: Seq<char>,
)
    requires
        program_checked(program, platform, mode) == Ok::<TypedProgramView, Seq<char>>(typed),
        0 <= k < functions_of(program).len(),
        ({
            let env = program_registered(program, platform).0.env;
            &&& env.signatures.contains_key(callee)
            &&& body_calls(env, functions_of(program)[k], callee)
        }),
    ensures
        ({
            let called = program_registered(program, platform).0.env.signatures[callee];
            let caller = typed.functions[k];
            &&& called.effectful ==> caller.effectful
            &&& called.declared matches Some(declared) ==> within(declared, caller.capabilities)
        }),
{
    let known = program_registered(program, platform).0;
    let functions = functions_of(program);
    law_registered(program, platform);
    lemma_functions_checked(known, known.types, functions, 0, Map::empty());
    let (types, result) = functions_checked(known.env, known.types, functions, 0, Map::empty());
    let needs = result->Ok_0;
    lemma_functions_typed(known, types, functions, 0, needs);
    assert(signed(known, functions[k]));
    assert(contained(known.env, functions[k], needs[functions[k].name]));
    assert(reported(functions[k], typed.functions[k - 0]));
    assert(covered(
        known.env.signatures[callee],
        Info {
            ty: 0,
            effectful: known.env.signatures[functions[k].name].effectful,
            capabilities: needs[functions[k].name],
        },
    ));
}

/// Capabilities come from calls: a function of an accepted program that declares no capabilities
/// has a capability exactly where a function that its body calls declares that one.
pub proof fn law_needs(
    program: ProgramView,
    platform: PlatformView,
    mode: CheckMode,
    typed: TypedProgramView,
    k: int,
    rank: u32,
)
    requires
        program_checked(program, platform, mode) == Ok::<TypedProgramView, Seq<char>>(typed),
        0 <= k < functions_of(program).len(),
        functions_of(program)[k].required is None,
    ensures
        has_rank(typed.functions[k].capabilities, rank) <==> needed(
            program_registered(program, platform).0.env,
            functions_of(program)[k],
            rank,
        ),
{
    let known = program_registered(program, platform).0;
    let functions = functions_of(program);
    law_registered(program, platform);
    lemma_functions_checked(known, known.types, functions, 0, Map::empty());
    let (types, result) = functions_checked(known.env, known.types, functions, 0, Map::empty());
    let needs = result->Ok_0;
    lemma_functions_typed(known, types, functions, 0, needs);
    assert(signed(known, functions[k]));
    assert(contained(known.env, functions[k], needs[functions[k].name]));
    assert(typed.functions[k] == typed.functions[k - 0]);
    if needed(known.env, functions[k], rank) {
        let callee = choose|callee: Seq<char>| #[trigger]
            body_calls(known.env, functions[k], callee) && declares(known.env, callee, rank);
        law_effects(program, platform, mode, typed, k, callee);
        let declared = known.env.signatures[callee].declared->Some_0;
        let i = choose|i: int| 0 <= i < declared.len() && (#[trigger] declared[i]).rank == rank;
        assert(has_rank(typed.functions[k].capabilities, declared[i].rank));
    }
}

/// An accepted executable program starts with one function, which takes no parameters, and needs
/// only capabilities that the platform provides.
pub proof fn law_boundary(
    program: ProgramView,
    platform: PlatformView,
    typed: TypedProgramView,
)
    requires
        program_checked(program, platform, CheckMode::Executable) == Ok::<
            TypedProgramView,
            Seq<char>,
        >(typed),
    ensures
        exists|k: int|
            {
                &&& 0 <= k < typed.functions.len()
                &&& is_entry((#[trigger] typed.functions[k]).name)
                &&& typed.functions[k].params.len() == 0
                &&& within(typed.functions[k].capabilities, platform.provided)
            },
        forall|j: int, k: int|
            0 <= j < typed.functions.len() && 0 <= k < typed.functions.len() && is_entry(
                (#[trigger] typed.functions[j]).name,
            ) && is_entry((#[trigger] typed.functions[k]).name) ==> j == k,
{
    let known = program_registered(program, platform).0;
    let functions = functions_of(program);
    law_annotations(program, platform, CheckMode::Executable, typed);
    law_registered(program, platform);
    lemma_functions_checked(known, known.types, functions, 0, Map::empty());
    let (types, result) = functions_checked(known.env, known.types, functions, 0, Map::empty());
    let needs = result->Ok_0;
    lemma_functions_typed(known, types, functions, 0, needs);
    lemma_entry(functions, 0);
    let at = entry_index(functions, 0);
    assert(reported(functions[at], typed.functions[at]));
    assert(typed.functions[at - 0].capabilities == needs_of(needs, functions[at].name));
    assert forall|j: int, k: int|
        0 <= j < typed.functions.len() && 0 <= k < typed.functions.len() && is_entry(
            (#[trigger] typed.functions[j]).name,
        ) && is_entry((#[trigger] typed.functions[k]).name) implies j == k by {
        assert(reported(functions[j], typed.functions[j]));
        assert(reported(functions[k], typed.functions[k]));
        lemma_one_entry(functions, 0, j, k);
    }
}

/// Where one function can start a program, no two can.
pub proof fn lemma_one_entry(functions: Seq<FunctionView>, i: int, j: int, k: int)
    requires
        0 <= i <= j < functions.len(),
        i <= k < functions.len(),
        entry_count(functions, i) <= 1,
        is_entry(functions[j].name),
        is_entry(functions[k].name),
    ensures
        j == k,
    decreases functions.len() - i,
{
    if is_entry(functions[i].name) {
        if j > i {
            lemma_entry_counted(functions, i + 1, j);
        }
        if k > i {
            lemma_entry_counted(functions, i + 1, k);
        }
    } else {
        lemma_one_entry(functions, i + 1, j, k);
    }
}

pub proof fn lemma_entry_counted(functions: Seq<FunctionView>, i: int, j: int)
    requires
        0 <= i <= j < functions.len(),
        is_entry(functions[j].name),
    ensures
        entry_count(functions, i) >= 1,
    decreases functions.len() - i,
{
    if i < j {
        lemma_entry_counted(functions, i + 1, j);
    }
}

} // verus!
