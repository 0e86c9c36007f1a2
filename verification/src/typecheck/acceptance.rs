//! Which programs are accepted.
use vstd::prelude::*;

use crate::ast::{functions_of, FunctionView, ProgramView, TypeView};
use crate::capability::{has_rank, law_union, set_of, union_of, within};
use crate::platform::PlatformView;
use crate::typecheck::laws::{
    annotated_slot, body_calls, law_registered, lemma_function_checked, lemma_functions_typed,
    lemma_params_scoped, param_names, settled, signed,
};
use crate::typecheck::model::{block_checked, Scope, Types};
use crate::typecheck::needs::{declares, lemma_block_needs};
use crate::typecheck::program::{
    function_checked, functions_checked, params_scoped, program_checked, program_registered,
    CheckMode, Known, Needs,
};
use crate::typecheck::purity::{body_effect, lemma_block as lemma_block_effect, types_before};
use crate::typecheck::soundness::{
    arrows_of, body_typing, distinct_params, has_type, lemma_arrows_of, lemma_block_typed,
    lemma_params_typed, lemma_type_kept, lemma_typed_kept, law_unified, param_types, typed_state,
};
use crate::typecheck::stability::{fixed, kept, lemma_block, lemma_kept_twice, lemma_ready};
use crate::typecheck::typing::Typing;

verus! {

/// A capability of the rank is in the list that the function declares.
pub open spec fn declares_rank(function: FunctionView, rank: u32) -> bool {
    function.required matches Some(list) && exists|i: int|
        0 <= i < list.len() && (#[trigger] list[i]).rank == rank
}

/// The function is in order: no two of its parameters have the same name, its body has the type
/// of its result, it is marked if its body has effects, and the capabilities that it declares, if
/// it declares any, are all that the functions called by its body declare.
pub open spec fn in_order(known: Known, types: Types, function: FunctionView) -> bool {
    &&& distinct_params(function)
    &&& body_typing(known, function) matches Typing::Has(ty) && function.return_annotation == Some(
        ty,
    )
    &&& function.name.len() > 0 && function.name.last() == '!' || !body_effect(
        known.env,
        types,
        function,
    )
    &&& function.required is Some ==> forall|callee: Seq<char>, rank: u32|
        body_calls(known.env, function, callee) && #[trigger] declares(known.env, callee, rank)
            ==> declares_rank(function, rank)
}

pub proof fn lemma_declared(function: FunctionView)
    requires
        function.required is Some,
    ensures
        forall|rank: u32|
            declares_rank(function, rank) <==> #[trigger] has_rank(
                set_of(function.required->Some_0),
                rank,
            ),
{
    let list = function.required->Some_0;
    law_union(Seq::empty(), list);
    assert forall|rank: u32|
        declares_rank(function, rank) <==> #[trigger] has_rank(set_of(list), rank) by {
        assert(has_rank(union_of(Seq::empty(), list), rank) <==> has_rank(
            Seq::empty(),
            rank,
        ) || has_rank(list, rank));
    }
}

pub proof fn lemma_accepted(known: Known, types: Types, function: FunctionView)
    requires
        settled(known),
        kept(types, known.types),
        signed(known, function),
        !(body_typing(known, function) is Open),
    ensures
        function_checked(known.env, types, function).1 is Ok <==> in_order(known, types, function),
{
    let env = known.env;
    let arrows = arrows_of(known);
    let signature = env.signatures[function.name];
    let none: Scope = Map::empty();
    lemma_arrows_of(known);
    assert(none.dom() =~= Map::<Seq<char>, TypeView>::empty().dom());
    assert(typed_state(env, arrows, known.types, none, Map::empty()));
    lemma_typed_kept(env, arrows, known.types, none, Map::empty(), types);
    assert forall|j: int| 0 <= j < function.params.len() implies annotated_slot(
        types,
        signature.params[j],
        (#[trigger] function.params[j]).ty,
    ) by {
        assert(annotated_slot(known.types, signature.params[j], function.params[j].ty));
        assert(known.types.has(signature.params[j]) && fixed(known.types, signature.params[j]));
    }
    assert(known.types.has(signature.ret) && fixed(known.types, signature.ret));
    lemma_params_typed(types, none, function, signature.params, 0);
    lemma_distinct(none, function, signature.params, 0);
    assert forall|k: int| 0 <= k < signature.params.len() implies types.has(
        #[trigger] signature.params[k],
    ) by {
        assert(annotated_slot(types, signature.params[k], function.params[k].ty));
    }
    assert(none.dom() =~= param_names(function, 0));
    lemma_params_scoped(none, function, signature.params, 0, types);
    if let Ok(scope) = params_scoped(none, function, signature.params, 0) {
        let locals = param_types(function, function.params.len() as int);
        lemma_block(env, types, scope, function.body);
        lemma_block_typed(env, arrows, types, scope, locals, function.body);
        let (one, result) = block_checked(env, types, scope, function.body);
        if let Typing::Has(ty) = body_typing(known, function) {
            let body = result->Ok_0;
            let ret = function.return_annotation->Some_0;
            assert(has_type(types, signature.ret, ret));
            lemma_type_kept(types, one, signature.ret, ret);
            law_unified(one, signature.ret, body.ty, ret, ty);
            lemma_block_effect(env, types, scope, function.body);
            lemma_function_checked(known, types, function);
            if function.required is Some {
                lemma_declared(function);
                let declared = set_of(function.required->Some_0);
                assert(signature.declared == Some(declared));
                if forall|callee: Seq<char>, rank: u32|
                    body_calls(known.env, function, callee) && #[trigger] declares(
                        known.env,
                        callee,
                        rank,
                    ) ==> declares_rank(function, rank) {
                    assert(within(body.capabilities, declared)) by {
                        assert forall|i: int| 0 <= i < body.capabilities.len() implies has_rank(
                            declared,
                            (#[trigger] body.capabilities[i]).rank,
                        ) by {
                            let rank = body.capabilities[i].rank;
                            assert(has_rank(body.capabilities, rank));
                            let callee = lemma_block_needs(env, types, scope, function.body, rank);
                            assert(body_calls(env, function, callee));
                            assert(declares(env, callee, rank));
                        }
                    }
                }
                if function_checked(known.env, types, function).1 is Ok {
                    assert forall|callee: Seq<char>, rank: u32|
                        body_calls(known.env, function, callee) && #[trigger] declares(
                            known.env,
                            callee,
                            rank,
                        ) implies declares_rank(function, rank) by {
                        let theirs = env.signatures[callee].declared->Some_0;
                        let i = choose|i: int|
                            0 <= i < theirs.len() && (#[trigger] theirs[i]).rank == rank;
                        assert(has_rank(declared, theirs[i].rank));
                    }
                }
            }
        }
    }
}

/// Parameters come into scope exactly where no two have the same name.
proof fn lemma_distinct(scope: Scope, function: FunctionView, params: Seq<int>, i: int)
    requires
        0 <= i <= function.params.len(),
        forall|j: int| 0 <= j < i ==> scope.contains_key((#[trigger] function.params[j]).name),
    ensures
        params_scoped(scope, function, params, i) is Ok ==> forall|j: int, k: int|
            0 <= j < k < function.params.len() && i <= k ==> (#[trigger] function.params[j]).name
                != (#[trigger] function.params[k]).name,
    decreases function.params.len() - i,
{
    if i < function.params.len() && !scope.contains_key(function.params[i].name) {
        let next = scope.insert(function.params[i].name, params[i]);
        lemma_distinct(next, function, params, i + 1);
    }
}

proof fn lemma_all_accepted(
    known: Known,
    types: Types,
    functions: Seq<FunctionView>,
    i: int,
    needs: Needs,
)
    requires
        settled(known),
        kept(types, known.types),
        0 <= i <= functions.len(),
        forall|k: int| 0 <= k < functions.len() ==> signed(known, #[trigger] functions[k]),
        forall|k: int|
            0 <= k < functions.len() ==> !(body_typing(known, #[trigger] functions[k]) is Open),
    ensures
        kept(functions_checked(known.env, types, functions, i, needs).0, known.types),
        functions_checked(known.env, types, functions, i, needs).1 is Ok <==> forall|k: int|
            i <= k < functions.len() ==> in_order(
                known,
                types_before(known.env, types, functions, i, k),
                #[trigger] functions[k],
            ),
    decreases functions.len() - i,
{
    if i < functions.len() {
        let function = functions[i];
        assert(signed(known, functions[i]));
        assert(!(body_typing(known, functions[i]) is Open));
        lemma_accepted(known, types, function);
        lemma_ready(known.env, known.types, Map::empty(), types);
        lemma_function_checked(known, types, function);
        let (one, result) = function_checked(known.env, types, function);
        lemma_kept_twice(known.types, types, one);
        assert(types_before(known.env, types, functions, i, i) == types);
        assert forall|k: int| i < k < functions.len() implies types_before(
            known.env,
            types,
            functions,
            i,
            k,
        ) == types_before(known.env, one, functions, i + 1, k) by {}
        if let Ok(capabilities) = result {
            lemma_all_accepted(
                known,
                one,
                functions,
                i + 1,
                needs.insert(function.name, capabilities),
            );
        } else {
            assert(!in_order(
                known,
                types_before(known.env, types, functions, i, i),
                functions[i],
            ));
        }
    }
}

/// Where its declarations are in order and no type parameter is left open, a program is accepted
/// as a library exactly where each of its functions is in order.
pub proof fn law_accepted(program: ProgramView, platform: PlatformView)
    requires
        program_registered(program, platform).1 is Ok,
        forall|k: int|
            0 <= k < functions_of(program).len() ==> !(body_typing(
                program_registered(program, platform).0,
                #[trigger] functions_of(program)[k],
            ) is Open),
    ensures
        program_checked(program, platform, CheckMode::Library) is Ok <==> forall|k: int|
            0 <= k < functions_of(program).len() ==> in_order(
                program_registered(program, platform).0,
                types_before(
                    program_registered(program, platform).0.env,
                    program_registered(program, platform).0.types,
                    functions_of(program),
                    0,
                    k,
                ),
                #[trigger] functions_of(program)[k],
            ),
{
    let known = program_registered(program, platform).0;
    let functions = functions_of(program);
    law_registered(program, platform);
    lemma_all_accepted(known, known.types, functions, 0, Map::empty());
    let (types, result) = functions_checked(known.env, known.types, functions, 0, Map::empty());
    if let Ok(needs) = result {
        lemma_functions_typed(known, types, functions, 0, needs);
    }
}

} // verus!
